//! Byte-level helpers shared by the tokeniser, the grammar and the renderer:
//! character classes, whitespace trimming and equality of byte runs.

use vstd::prelude::*;

verus! {

/// Whitespace bytes recognized by the language: space, tab, carriage return,
/// line feed.
pub open spec fn is_ws(b: u8) -> bool {
    b == 32 || b == 9 || b == 13 || b == 10
}

pub open spec fn is_digit(b: u8) -> bool {
    48 <= b <= 57
}

pub open spec fn is_lower(b: u8) -> bool {
    97 <= b <= 122
}

pub open spec fn is_upper(b: u8) -> bool {
    65 <= b <= 90
}

pub open spec fn is_letter(b: u8) -> bool {
    is_lower(b) || is_upper(b)
}

pub open spec fn is_alnum(b: u8) -> bool {
    is_letter(b) || is_digit(b)
}

/// Executable mirrors of the character classes.
pub fn byte_is_ws(b: u8) -> (r: bool)
    ensures
        r == is_ws(b),
{
    b == 32 || b == 9 || b == 13 || b == 10
}

pub fn byte_is_digit(b: u8) -> (r: bool)
    ensures
        r == is_digit(b),
{
    48 <= b && b <= 57
}

pub fn byte_is_lower(b: u8) -> (r: bool)
    ensures
        r == is_lower(b),
{
    97 <= b && b <= 122
}

pub fn byte_is_upper(b: u8) -> (r: bool)
    ensures
        r == is_upper(b),
{
    65 <= b && b <= 90
}

pub fn byte_is_letter(b: u8) -> (r: bool)
    ensures
        r == is_letter(b),
{
    byte_is_lower(b) || byte_is_upper(b)
}

pub fn byte_is_alnum(b: u8) -> (r: bool)
    ensures
        r == is_alnum(b),
{
    byte_is_letter(b) || byte_is_digit(b)
}

/// Bytes accepted inside a numeric literal: digits and the dot.
pub open spec fn is_numchar(b: u8) -> bool {
    is_digit(b) || b == 46
}

pub fn byte_is_numchar(b: u8) -> (r: bool)
    ensures
        r == is_numchar(b),
{
    byte_is_digit(b) || b == 46
}

/// Bytes skipped before a block name: whitespace and parentheses.
pub open spec fn is_skipchar(b: u8) -> bool {
    is_ws(b) || b == 40 || b == 41
}

pub fn byte_is_skipchar(b: u8) -> (r: bool)
    ensures
        r == is_skipchar(b),
{
    byte_is_ws(b) || b == 40 || b == 41
}

/// Length of the maximal run of whitespace bytes starting at `i`.
pub open spec fn ws_run(s: Seq<u8>, i: int) -> int
    decreases s.len() - i when 0 <= i <= s.len()
{
    if i < s.len() && is_ws(s[i]) {
        1 + ws_run(s, i + 1)
    } else {
        0
    }
}

/// Length of the maximal run of numeric bytes starting at `i`.
pub open spec fn num_run(s: Seq<u8>, i: int) -> int
    decreases s.len() - i when 0 <= i <= s.len()
{
    if i < s.len() && is_numchar(s[i]) {
        1 + num_run(s, i + 1)
    } else {
        0
    }
}

/// Length of the maximal run of alphanumeric bytes starting at `i`.
pub open spec fn alnum_run(s: Seq<u8>, i: int) -> int
    decreases s.len() - i when 0 <= i <= s.len()
{
    if i < s.len() && is_alnum(s[i]) {
        1 + alnum_run(s, i + 1)
    } else {
        0
    }
}

/// Length of the maximal run of skippable bytes starting at `i`.
pub open spec fn skip1_run(s: Seq<u8>, i: int) -> int
    decreases s.len() - i when 0 <= i <= s.len()
{
    if i < s.len() && is_skipchar(s[i]) {
        1 + skip1_run(s, i + 1)
    } else {
        0
    }
}

pub proof fn lemma_ws_run(s: Seq<u8>, i: int)
    requires
        0 <= i <= s.len(),
    ensures
        0 <= ws_run(s, i),
        i + ws_run(s, i) <= s.len(),
        forall|k: int| i <= k < i + ws_run(s, i) ==> is_ws(s[k]),
        i + ws_run(s, i) < s.len() ==> !is_ws(s[i + ws_run(s, i)]),
    decreases s.len() - i,
{
    if i < s.len() && is_ws(s[i]) {
        lemma_ws_run(s, i + 1);
    }
}

pub proof fn lemma_num_run(s: Seq<u8>, i: int)
    requires
        0 <= i <= s.len(),
    ensures
        0 <= num_run(s, i),
        i + num_run(s, i) <= s.len(),
        forall|k: int| i <= k < i + num_run(s, i) ==> is_numchar(s[k]),
        i + num_run(s, i) < s.len() ==> !is_numchar(s[i + num_run(s, i)]),
    decreases s.len() - i,
{
    if i < s.len() && is_numchar(s[i]) {
        lemma_num_run(s, i + 1);
    }
}

pub proof fn lemma_alnum_run(s: Seq<u8>, i: int)
    requires
        0 <= i <= s.len(),
    ensures
        0 <= alnum_run(s, i),
        i + alnum_run(s, i) <= s.len(),
        forall|k: int| i <= k < i + alnum_run(s, i) ==> is_alnum(s[k]),
        i + alnum_run(s, i) < s.len() ==> !is_alnum(s[i + alnum_run(s, i)]),
    decreases s.len() - i,
{
    if i < s.len() && is_alnum(s[i]) {
        lemma_alnum_run(s, i + 1);
    }
}

pub proof fn lemma_skip1_run(s: Seq<u8>, i: int)
    requires
        0 <= i <= s.len(),
    ensures
        0 <= skip1_run(s, i),
        i + skip1_run(s, i) <= s.len(),
        forall|k: int| i <= k < i + skip1_run(s, i) ==> is_skipchar(s[k]),
        i + skip1_run(s, i) < s.len() ==> !is_skipchar(s[i + skip1_run(s, i)]),
    decreases s.len() - i,
{
    if i < s.len() && is_skipchar(s[i]) {
        lemma_skip1_run(s, i + 1);
    }
}

/// Advance past whitespace.
pub fn skip_ws(s: &[u8], i: usize) -> (j: usize)
    requires
        i <= s@.len(),
    ensures
        j == i + ws_run(s@, i as int),
        i <= j <= s@.len(),
{
    let mut j: usize = i;
    proof {
        lemma_ws_run(s@, i as int);
    }
    while j < s.len() && byte_is_ws(s[j])
        invariant
            i <= j <= s@.len(),
            ws_run(s@, i as int) == (j - i) + ws_run(s@, j as int),
        decreases s@.len() - j,
    {
        proof {
            assert(ws_run(s@, j as int) == 1 + ws_run(s@, j + 1));
        }
        j = j + 1;
    }
    proof {
        assert(ws_run(s@, j as int) == 0);
    }
    j
}

/// Number of leading whitespace bytes of `s`.
pub open spec fn leading_ws(s: Seq<u8>) -> int
    decreases s.len(),
{
    if s.len() == 0 {
        0
    } else if is_ws(s[0]) {
        1 + leading_ws(s.drop_first())
    } else {
        0
    }
}

/// Number of trailing whitespace bytes of `s`.
pub open spec fn trailing_ws(s: Seq<u8>) -> int
    decreases s.len(),
{
    if s.len() == 0 {
        0
    } else if is_ws(s[s.len() - 1]) {
        1 + trailing_ws(s.drop_last())
    } else {
        0
    }
}

/// `s` with surrounding whitespace removed.
pub open spec fn spec_trim(s: Seq<u8>) -> Seq<u8> {
    s.subrange(leading_ws(s), s.len() - trailing_ws(leading_ws_dropped(s)))
}

/// `s` with its leading whitespace removed.
pub open spec fn leading_ws_dropped(s: Seq<u8>) -> Seq<u8> {
    s.subrange(leading_ws(s), s.len() as int)
}

pub proof fn lemma_leading_ws_bounds(s: Seq<u8>)
    ensures
        0 <= leading_ws(s) <= s.len(),
        forall|k: int| 0 <= k < leading_ws(s) ==> is_ws(s[k]),
        leading_ws(s) < s.len() ==> !is_ws(s[leading_ws(s)]),
    decreases s.len(),
{
    if s.len() == 0 {
    } else if is_ws(s[0]) {
        lemma_leading_ws_bounds(s.drop_first());
        assert forall|k: int| 0 <= k < leading_ws(s) implies is_ws(s[k]) by {
            if k > 0 {
                assert(s.drop_first()[k - 1] == s[k]);
            }
        }
        if leading_ws(s) < s.len() {
            assert(s.drop_first()[leading_ws(s) - 1] == s[leading_ws(s)]);
        }
    } else {
    }
}

pub proof fn lemma_trailing_ws_bounds(s: Seq<u8>)
    ensures
        0 <= trailing_ws(s) <= s.len(),
        forall|k: int| s.len() - trailing_ws(s) <= k < s.len() ==> is_ws(s[k]),
        trailing_ws(s) < s.len() ==> !is_ws(s[s.len() - trailing_ws(s) - 1]),
    decreases s.len(),
{
    if s.len() == 0 {
    } else if is_ws(s[s.len() - 1]) {
        let t = s.drop_last();
        lemma_trailing_ws_bounds(t);
        assert forall|k: int| s.len() - trailing_ws(s) <= k < s.len() implies is_ws(s[k]) by {
            if k < s.len() - 1 {
                assert(t[k] == s[k]);
            }
        }
        if trailing_ws(s) < s.len() {
            assert(t[t.len() - trailing_ws(t) - 1] == s[t.len() - trailing_ws(t) - 1]);
        }
    } else {
    }
}

/// Remove surrounding whitespace; the executable counterpart of `spec_trim`.
pub fn trim_bytes(s: &[u8]) -> (r: Vec<u8>)
    ensures
        r@ == spec_trim(s@),
{
    proof {
        lemma_leading_ws_bounds(s@);
    }
    let mut start: usize = 0;
    while start < s.len() && byte_is_ws(s[start])
        invariant
            0 <= start <= s@.len(),
            start <= leading_ws(s@),
            forall|k: int| 0 <= k < start ==> is_ws(s@[k]),
        decreases s@.len() - start,
    {
        proof {
            lemma_leading_ws_bounds(s@);
            if start + 1 > leading_ws(s@) {
                assert(is_ws(s@[leading_ws(s@)]));
            }
        }
        start = start + 1;
    }
    proof {
        lemma_leading_ws_bounds(s@);
        assert(start == leading_ws(s@));
        lemma_trailing_ws_bounds(leading_ws_dropped(s@));
    }
    let ghost rest = leading_ws_dropped(s@);
    let mut end: usize = s.len();
    while end > start && byte_is_ws(s[end - 1])
        invariant
            start <= end <= s@.len(),
            start == leading_ws(s@),
            rest == leading_ws_dropped(s@),
            s@.len() - end <= trailing_ws(rest),
            forall|k: int| end <= k < s@.len() ==> is_ws(s@[k]),
        decreases end,
    {
        proof {
            lemma_trailing_ws_bounds(rest);
            assert(rest.len() == s@.len() - start);
            if (s@.len() - end) + 1 > trailing_ws(rest) {
                assert(is_ws(rest[rest.len() - trailing_ws(rest) - 1]));
                assert(rest[rest.len() - trailing_ws(rest) - 1] == s@[s@.len() - trailing_ws(rest)
                    - 1]);
            }
        }
        end = end - 1;
    }
    proof {
        lemma_trailing_ws_bounds(rest);
        if end > start {
            assert(rest[end - 1 - start] == s@[end - 1]);
            assert(s@.len() - end == trailing_ws(rest));
        } else {
            assert(forall|k: int| 0 <= k < rest.len() ==> is_ws(rest[k]));
            assert(s@.len() - end == trailing_ws(rest)) by {
                if trailing_ws(rest) < rest.len() {
                    assert(!is_ws(rest[rest.len() - trailing_ws(rest) - 1]));
                }
            }
        }
    }
    let mut r: Vec<u8> = Vec::new();
    let mut i: usize = start;
    while i < end
        invariant
            start <= i <= end <= s@.len(),
            r@ == s@.subrange(start as int, i as int),
        decreases end - i,
    {
        r.push(s[i]);
        proof {
            assert(r@ == s@.subrange(start as int, i + 1 as int)) by {
                assert(s@.subrange(start as int, i + 1 as int) == s@.subrange(
                    start as int,
                    i as int,
                ).push(s@[i as int]));
            }
        }
        i = i + 1;
    }
    proof {
        assert(r@ == spec_trim(s@)) by {
            assert(spec_trim(s@) == s@.subrange(start as int, end as int));
        }
    }
    r
}

/// Byte-run equality, usable where a derived `==` would be opaque to proofs.
pub fn bytes_eq(a: &[u8], b: &[u8]) -> (r: bool)
    ensures
        r <==> a@ == b@,
{
    if a.len() != b.len() {
        proof {
            assert(a@.len() != b@.len());
        }
        return false;
    }
    let mut i: usize = 0;
    while i < a.len()
        invariant
            0 <= i <= a@.len(),
            a@.len() == b@.len(),
            forall|k: int| 0 <= k < i ==> a@[k] == b@[k],
        decreases a@.len() - i,
    {
        if a[i] != b[i] {
            return false;
        }
        i = i + 1;
    }
    proof {
        assert(a@ =~= b@);
    }
    true
}

pub proof fn lemma_prefix_append(a: Seq<u8>, b: Seq<u8>)
    ensures
        a.is_prefix_of(a + b),
{
    assert(a =~= (a + b).subrange(0, a.len() as int));
}

pub proof fn lemma_prefix_trans(a: Seq<u8>, b: Seq<u8>, c: Seq<u8>)
    requires
        a.is_prefix_of(b),
        b.is_prefix_of(c),
    ensures
        a.is_prefix_of(c),
{
    assert(a =~= c.subrange(0, a.len() as int));
}

/// Append every byte of `src` to `dst`.
pub fn push_all(dst: &mut Vec<u8>, src: &[u8])
    ensures
        final(dst)@ == old(dst)@ + src@,
{
    let mut i: usize = 0;
    while i < src.len()
        invariant
            0 <= i <= src@.len(),
            dst@ == old(dst)@ + src@.subrange(0, i as int),
        decreases src@.len() - i,
    {
        dst.push(src[i]);
        proof {
            assert(src@.subrange(0, i + 1 as int) == src@.subrange(0, i as int).push(
                src@[i as int],
            ));
        }
        i = i + 1;
    }
    proof {
        assert(src@.subrange(0, src@.len() as int) == src@);
    }
}

} // verus!

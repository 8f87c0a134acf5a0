//! The grammar of the markup language, written as a recursive-descent parser.
//! Every parsing function is proved equal to a mathematical parsing function
//! over the input bytes, so the contracts pin down the accepted language and
//! the produced tree exactly.
//!
//! Math expressions follow the precedence chain `sum -> product -> power ->
//! primary`; a primary is a number, an identifier, a matrix usage, a fraction
//! or a parenthesized sum.

use vstd::prelude::*;

use crate::ast::{
    lemma_view_math_list_push, view_math, view_math_list, CodeExpr, DocNode, MathExpr, ParsedFile,
    SetupItem, SpecCodeExpr, SpecDocNode, SpecMathExpr, SpecSetupItem,
};
use crate::kw::{
    is_author, is_begin, is_documentclass, is_end, is_fraction, is_matrix, is_setup, is_title,
    kw_author,
    kw_begin, kw_document, kw_documentclass, kw_end, kw_fraction, kw_matrix, kw_python, kw_setup,
    kw_title,
};
use crate::util::{
    alnum_run, byte_is_digit, byte_is_letter, bytes_eq, is_alnum, is_digit, is_letter,
    lemma_alnum_run, lemma_num_run, lemma_ws_run, num_run, skip_ws, spec_trim, trim_bytes, ws_run,
};
use crate::tokeniser::{get_alphanumeric, get_numeric};

verus! {

/// The first position at or after `i` holding byte `b`, or -1.
pub open spec fn find_byte(s: Seq<u8>, i: int, b: u8) -> int
    decreases s.len() - i when 0 <= i <= s.len()
{
    if i >= s.len() {
        -1
    } else if s[i] == b {
        i
    } else {
        find_byte(s, i + 1, b)
    }
}

pub proof fn lemma_find_byte(s: Seq<u8>, i: int, b: u8)
    requires
        0 <= i <= s.len(),
    ensures
        find_byte(s, i, b) == -1 || (i <= find_byte(s, i, b) < s.len() && s[find_byte(s, i, b)]
            == b),
    decreases s.len() - i,
{
    if i >= s.len() {
    } else if s[i] == b {
    } else {
        lemma_find_byte(s, i + 1, b);
    }
}

/// Executable search for a byte.
pub fn find_byte_exec(s: &[u8], i: usize, b: u8) -> (r: Option<usize>)
    requires
        i <= s@.len(),
    ensures
        (match r {
            Some(q) => find_byte(s@, i as int, b) == q as int && i <= q < s@.len(),
            None => find_byte(s@, i as int, b) == -1,
        }),
{
    let mut j: usize = i;
    while j < s.len()
        invariant
            i <= j <= s@.len(),
            find_byte(s@, i as int, b) == find_byte(s@, j as int, b),
            forall|k: int| i <= k < j ==> s@[k] != b,
        decreases s@.len() - j,
    {
        if s[j] == b {
            proof {
                lemma_find_byte(s@, j as int, b);
            }
            return Some(j);
        }
        j = j + 1;
    }
    proof {
        assert(find_byte(s@, j as int, b) == -1);
    }
    None
}

/// Does the literal `lit` occur at position `i`?
pub open spec fn matches_at(s: Seq<u8>, i: int, lit: Seq<u8>) -> bool {
    0 <= i && i + lit.len() <= s.len() && s.subrange(i, i + lit.len()) == lit
}

/// Executable literal match.
pub fn matches_at_exec(s: &[u8], i: usize, lit: &[u8]) -> (r: bool)
    ensures
        r == matches_at(s@, i as int, lit@),
{
    if i <= s.len() && lit.len() <= s.len() - i {
        let part = vstd::slice::slice_subrange(s, i, i + lit.len());
        bytes_eq(part, lit)
    } else {
        false
    }
}

/// The first position at or after `i` where `lit` occurs, or -1.
pub open spec fn find_lit(s: Seq<u8>, i: int, lit: Seq<u8>) -> int
    decreases s.len() - i when 0 <= i <= s.len()
{
    if i >= s.len() {
        -1
    } else if matches_at(s, i, lit) {
        i
    } else {
        find_lit(s, i + 1, lit)
    }
}

pub proof fn lemma_find_lit(s: Seq<u8>, i: int, lit: Seq<u8>)
    requires
        0 <= i <= s.len(),
    ensures
        find_lit(s, i, lit) == -1 || (i <= find_lit(s, i, lit) && find_lit(s, i, lit) + lit.len()
            <= s.len()),
    decreases s.len() - i,
{
    if i >= s.len() {
    } else if matches_at(s, i, lit) {
    } else {
        lemma_find_lit(s, i + 1, lit);
    }
}

/// Executable literal search.
pub fn find_lit_exec(s: &[u8], i: usize, lit: &[u8]) -> (r: Option<usize>)
    requires
        i <= s@.len(),
    ensures
        (match r {
            Some(q) => find_lit(s@, i as int, lit@) == q as int && i <= q && q + lit@.len()
                <= s@.len(),
            None => find_lit(s@, i as int, lit@) == -1,
        }),
{
    let mut j: usize = i;
    while j < s.len()
        invariant
            i <= j <= s@.len(),
            find_lit(s@, i as int, lit@) == find_lit(s@, j as int, lit@),
        decreases s@.len() - j,
    {
        if matches_at_exec(s, j, lit) {
            proof {
                assert(find_lit(s@, j as int, lit@) == j as int);
            }
            return Some(j);
        }
        proof {
            assert(find_lit(s@, j as int, lit@) == find_lit(s@, j + 1, lit@));
        }
        j = j + 1;
    }
    proof {
        assert(find_lit(s@, j as int, lit@) == -1);
    }
    None
}

/// The position just past the parenthesis that closes `depth` open ones, or -1.
pub open spec fn find_close(s: Seq<u8>, i: int, depth: int) -> int
    decreases s.len() - i when 0 <= i <= s.len()
{
    if i >= s.len() {
        -1
    } else if s[i] == 41 && depth == 1 {
        i + 1
    } else if s[i] == 40 {
        find_close(s, i + 1, depth + 1)
    } else if s[i] == 41 {
        find_close(s, i + 1, depth - 1)
    } else {
        find_close(s, i + 1, depth)
    }
}

pub proof fn lemma_find_close(s: Seq<u8>, i: int, depth: int)
    requires
        0 <= i <= s.len(),
    ensures
        find_close(s, i, depth) == -1 || i < find_close(s, i, depth) <= s.len(),
    decreases s.len() - i,
{
    if i >= s.len() {
    } else if s[i] == 41 && depth == 1 {
    } else if s[i] == 40 {
        lemma_find_close(s, i + 1, depth + 1);
    } else if s[i] == 41 {
        lemma_find_close(s, i + 1, depth - 1);
    } else {
        lemma_find_close(s, i + 1, depth);
    }
}

/// Executable balanced-parenthesis scan, starting inside one open group.
pub fn find_close_exec(s: &[u8], i: usize) -> (r: Option<usize>)
    requires
        i <= s@.len(),
    ensures
        (match r {
            Some(q) => find_close(s@, i as int, 1) == q as int && i < q <= s@.len(),
            None => find_close(s@, i as int, 1) == -1,
        }),
{
    let mut j: usize = i;
    let mut d: usize = 1;
    while j < s.len()
        invariant
            i <= j <= s@.len(),
            1 <= d,
            d <= 1 + (j - i),
            find_close(s@, i as int, 1) == find_close(s@, j as int, d as int),
        decreases s@.len() - j,
    {
        let b = s[j];
        if b == 41 && d == 1 {
            proof {
                assert(find_close(s@, j as int, d as int) == j + 1);
            }
            return Some(j + 1);
        }
        if b == 40 {
            if d == usize::MAX {
                proof {
                    lemma_find_close_neg(s@, j as int, d as int);
                }
                return None;
            }
            d = d + 1;
        } else if b == 41 {
            d = d - 1;
        }
        j = j + 1;
    }
    proof {
        assert(find_close(s@, j as int, d as int) == -1);
    }
    None
}

proof fn lemma_find_close_neg(s: Seq<u8>, i: int, depth: int)
    requires
        0 <= i <= s.len(),
        depth > s.len() - i,
    ensures
        find_close(s, i, depth) == -1,
    decreases s.len() - i,
{
    if i >= s.len() {
    } else if s[i] == 41 && depth == 1 {
    } else if s[i] == 40 {
        lemma_find_close_neg(s, i + 1, depth + 1);
    } else if s[i] == 41 {
        lemma_find_close_neg(s, i + 1, depth - 1);
    } else {
        lemma_find_close_neg(s, i + 1, depth);
    }
}

/// The first position at or after `i` holding a comma or a closing bracket.
pub open spec fn find_elem_end(s: Seq<u8>, i: int) -> int
    decreases s.len() - i when 0 <= i <= s.len()
{
    if i >= s.len() {
        -1
    } else if s[i] == 44 || s[i] == 93 {
        i
    } else {
        find_elem_end(s, i + 1)
    }
}

pub proof fn lemma_find_elem_end(s: Seq<u8>, i: int)
    requires
        0 <= i <= s.len(),
    ensures
        find_elem_end(s, i) == -1 || (i <= find_elem_end(s, i) < s.len() && (s[find_elem_end(
            s,
            i,
        )] == 44 || s[find_elem_end(s, i)] == 93)),
    decreases s.len() - i,
{
    if i >= s.len() {
    } else if s[i] == 44 || s[i] == 93 {
    } else {
        lemma_find_elem_end(s, i + 1);
    }
}

fn find_elem_end_exec(s: &[u8], i: usize) -> (r: Option<usize>)
    requires
        i <= s@.len(),
    ensures
        (match r {
            Some(q) => find_elem_end(s@, i as int) == q as int && i <= q < s@.len(),
            None => find_elem_end(s@, i as int) == -1,
        }),
{
    let mut j: usize = i;
    while j < s.len()
        invariant
            i <= j <= s@.len(),
            find_elem_end(s@, i as int) == find_elem_end(s@, j as int),
        decreases s@.len() - j,
    {
        if s[j] == 44 || s[j] == 93 {
            proof {
                lemma_find_elem_end(s@, j as int);
            }
            return Some(j);
        }
        j = j + 1;
    }
    proof {
        assert(find_elem_end(s@, j as int) == -1);
    }
    None
}

/// The termination measure for positions: how many bytes are left.
pub open spec fn remaining(s: Seq<u8>, i: int) -> int {
    if i <= s.len() {
        s.len() - i
    } else {
        0
    }
}

/// A parse never moves backwards; this guard makes that shape explicit for
/// the termination checker.
pub open spec fn pos_after(i: int, p: int) -> int {
    if p < i {
        i
    } else {
        p
    }
}

pub type MathResult = Result<(SpecMathExpr, int), int>;

/// A sum: one or more products separated by `+` or `-`.
pub open spec fn spec_parse_sum(s: Seq<u8>, i: int) -> MathResult
    decreases remaining(s, i), 6int, when 0 <= i <= s.len()
{
    match spec_parse_product(s, i) {
        Err(p) => Err(p),
        Ok((e, p)) => spec_sum_rest(s, pos_after(i, p), seq![e]),
    }
}

pub open spec fn spec_sum_rest(s: Seq<u8>, i: int, acc: Seq<SpecMathExpr>) -> MathResult
    decreases remaining(s, i), 5int, when 0 <= i <= s.len()
{
    let j = i + ws_run(s, i);
    if j < s.len() && (s[j] == 43 || s[j] == 45) {
        proof {
            lemma_ws_run(s, i);
        }
        match spec_parse_product(s, j + 1) {
            Err(p) => Err(p),
            Ok((e, p)) => spec_sum_rest(s, pos_after(j + 1, p), acc.push(e)),
        }
    } else {
        Ok((SpecMathExpr::Sum(acc), i))
    }
}

/// A product: one or more powers separated by `*`.
pub open spec fn spec_parse_product(s: Seq<u8>, i: int) -> MathResult
    decreases remaining(s, i), 4int, when 0 <= i <= s.len()
{
    match spec_parse_power(s, i) {
        Err(p) => Err(p),
        Ok((e, p)) => spec_product_rest(s, pos_after(i, p), seq![e]),
    }
}

pub open spec fn spec_product_rest(s: Seq<u8>, i: int, acc: Seq<SpecMathExpr>) -> MathResult
    decreases remaining(s, i), 3int, when 0 <= i <= s.len()
{
    let j = i + ws_run(s, i);
    if j < s.len() && s[j] == 42 {
        proof {
            lemma_ws_run(s, i);
        }
        match spec_parse_power(s, j + 1) {
            Err(p) => Err(p),
            Ok((e, p)) => spec_product_rest(s, pos_after(j + 1, p), acc.push(e)),
        }
    } else {
        Ok((SpecMathExpr::Product(acc), i))
    }
}

/// A power: one or more primaries separated by `^`.
pub open spec fn spec_parse_power(s: Seq<u8>, i: int) -> MathResult
    decreases remaining(s, i), 2int, when 0 <= i <= s.len()
{
    match spec_parse_primary(s, i) {
        Err(p) => Err(p),
        Ok((e, p)) => spec_power_rest(s, pos_after(i, p), seq![e]),
    }
}

pub open spec fn spec_power_rest(s: Seq<u8>, i: int, acc: Seq<SpecMathExpr>) -> MathResult
    decreases remaining(s, i), 1int, when 0 <= i <= s.len()
{
    let j = i + ws_run(s, i);
    if j < s.len() && s[j] == 94 {
        proof {
            lemma_ws_run(s, i);
        }
        match spec_parse_primary(s, j + 1) {
            Err(p) => Err(p),
            Ok((e, p)) => spec_power_rest(s, pos_after(j + 1, p), acc.push(e)),
        }
    } else {
        Ok((SpecMathExpr::Power(acc), i))
    }
}

/// A primary expression: number, parenthesized sum, matrix usage, fraction,
/// or identifier.
pub open spec fn spec_parse_primary(s: Seq<u8>, i: int) -> MathResult
    decreases remaining(s, i), 0int, when 0 <= i <= s.len()
{
    let j = i + ws_run(s, i);
    proof {
        lemma_ws_run(s, i);
    }
    if j >= s.len() {
        Err(j)
    } else {
        let b = s[j];
        if is_digit(b) {
            proof {
                lemma_num_run(s, j);
            }
            let n = num_run(s, j);
            Ok((SpecMathExpr::Number(s.subrange(j, j + n)), j + n))
        } else if b == 40 {
            match spec_parse_sum(s, j + 1) {
                Err(p) => Err(p),
                Ok((e, p)) => {
                    let k = pos_after(j + 1, p);
                    let k2 = k + ws_run(s, k);
                    if k2 < s.len() && s[k2] == 41 {
                        Ok((e, k2 + 1))
                    } else {
                        Err(k2)
                    }
                },
            }
        } else if is_letter(b) {
            proof {
                lemma_alnum_run(s, j);
            }
            let n = alnum_run(s, j);
            let w = s.subrange(j, j + n);
            let j2 = j + n;
            if w == kw_matrix() {
                proof {
                    lemma_ws_run(s, j2);
                }
                let j3 = j2 + ws_run(s, j2);
                let m = alnum_run(s, j3);
                if j3 <= s.len() && m > 0 {
                    Ok((SpecMathExpr::MatrixUse(s.subrange(j3, j3 + m)), j3 + m))
                } else {
                    Err(j3)
                }
            } else if w == kw_fraction() {
                spec_frac_rest(s, j2, Seq::<Seq<u8>>::empty())
            } else {
                Ok((SpecMathExpr::Ident(w), j2))
            }
        } else {
            Err(j)
        }
    }
}

/// The backslash-prefixed tokens of a fraction, e.g. the two of
/// `fraction \dy\dx`.
pub open spec fn spec_frac_rest(s: Seq<u8>, i: int, acc: Seq<Seq<u8>>) -> MathResult
    decreases remaining(s, i), 0int, when 0 <= i <= s.len()
{
    let j = i + ws_run(s, i);
    proof {
        lemma_ws_run(s, i);
    }
    if j < s.len() && s[j] == 92 {
        proof {
            lemma_alnum_run(s, j + 1);
        }
        let n = alnum_run(s, j + 1);
        spec_frac_rest(s, j + 1 + n, acc.push(s.subrange(j + 1, j + 1 + n)))
    } else {
        if acc.len() == 0 {
            Err(j)
        } else {
            Ok((SpecMathExpr::Fraction(acc), i))
        }
    }
}

/// Parse a sum expression starting at `i`.
pub fn parse_sum(s: &[u8], i: usize) -> (r: Result<(MathExpr, usize), usize>)
    requires
        i <= s@.len(),
    ensures
        (match r {
            Ok(ep) => spec_parse_sum(s@, i as int) == Ok::<(SpecMathExpr, int), int>(
                (ep.0@, ep.1 as int),
            ) && i <= ep.1 <= s@.len(),
            Err(q) => spec_parse_sum(s@, i as int) == Err::<(SpecMathExpr, int), int>(q as int),
        }),
    decreases s@.len() - i, 6int,
{
    match parse_product(s, i) {
        Err(p) => Err(p),
        Ok((e, p)) => {
            let mut acc: Vec<MathExpr> = Vec::new();
            let ghost ev = e@;
            acc.push(e);
            proof {
                assert(view_math_list(acc@.drop_first()) =~= Seq::<SpecMathExpr>::empty());
                assert(view_math_list(acc@) =~= seq![ev]);
                assert(pos_after(i as int, p as int) == p as int);
            }
            parse_sum_rest(s, p, acc)
        },
    }
}

fn parse_sum_rest(s: &[u8], i: usize, acc: Vec<MathExpr>) -> (r: Result<(MathExpr, usize), usize>)
    requires
        i <= s@.len(),
    ensures
        (match r {
            Ok(ep) => spec_sum_rest(s@, i as int, view_math_list(acc@)) == Ok::<
                (SpecMathExpr, int),
                int,
            >((ep.0@, ep.1 as int)) && i <= ep.1 <= s@.len(),
            Err(q) => spec_sum_rest(s@, i as int, view_math_list(acc@)) == Err::<
                (SpecMathExpr, int),
                int,
            >(q as int),
        }),
    decreases s@.len() - i, 5int,
{
    let ghost acc0 = acc@;
    let ghost accv = view_math_list(acc@);
    let j = skip_ws(s, i);
    if j < s.len() && (s[j] == 43 || s[j] == 45) {
        match parse_product(s, j + 1) {
            Err(p) => {
                proof {
                    assert(spec_sum_rest(s@, i as int, accv) == Err::<(SpecMathExpr, int), int>(
                        p as int,
                    ));
                }
                Err(p)
            },
            Ok((e, p)) => {
                let ghost e0 = e;
                let mut acc2 = acc;
                acc2.push(e);
                proof {
                    assert(acc2@ == acc0.push(e0));
                    lemma_view_math_list_push(acc0, e0);
                    assert(pos_after(j + 1 as int, p as int) == p as int);
                    assert(spec_sum_rest(s@, i as int, accv) == spec_sum_rest(
                        s@,
                        p as int,
                        view_math_list(acc2@),
                    ));
                }
                parse_sum_rest(s, p, acc2)
            },
        }
    } else {
        proof {
            assert(spec_sum_rest(s@, i as int, accv) == Ok::<(SpecMathExpr, int), int>(
                (SpecMathExpr::Sum(accv), i as int),
            ));
        }
        Ok((MathExpr::Sum(acc), i))
    }
}

/// Parse a product expression starting at `i`.
pub fn parse_product(s: &[u8], i: usize) -> (r: Result<(MathExpr, usize), usize>)
    requires
        i <= s@.len(),
    ensures
        (match r {
            Ok(ep) => spec_parse_product(s@, i as int) == Ok::<(SpecMathExpr, int), int>(
                (ep.0@, ep.1 as int),
            ) && i <= ep.1 <= s@.len(),
            Err(q) => spec_parse_product(s@, i as int) == Err::<(SpecMathExpr, int), int>(
                q as int,
            ),
        }),
    decreases s@.len() - i, 4int,
{
    match parse_power(s, i) {
        Err(p) => Err(p),
        Ok((e, p)) => {
            let mut acc: Vec<MathExpr> = Vec::new();
            let ghost e0 = e;
            acc.push(e);
            proof {
                assert(view_math_list(acc@.drop_first()) =~= Seq::<SpecMathExpr>::empty());
                assert(view_math_list(acc@) =~= seq![view_math(e0)]);
                assert(pos_after(i as int, p as int) == p as int);
            }
            parse_product_rest(s, p, acc)
        },
    }
}

fn parse_product_rest(s: &[u8], i: usize, acc: Vec<MathExpr>) -> (r: Result<
    (MathExpr, usize),
    usize,
>)
    requires
        i <= s@.len(),
    ensures
        (match r {
            Ok(ep) => spec_product_rest(s@, i as int, view_math_list(acc@)) == Ok::<
                (SpecMathExpr, int),
                int,
            >((ep.0@, ep.1 as int)) && i <= ep.1 <= s@.len(),
            Err(q) => spec_product_rest(s@, i as int, view_math_list(acc@)) == Err::<
                (SpecMathExpr, int),
                int,
            >(q as int),
        }),
    decreases s@.len() - i, 3int,
{
    let ghost acc0 = acc@;
    let ghost accv = view_math_list(acc@);
    let j = skip_ws(s, i);
    if j < s.len() && s[j] == 42 {
        match parse_power(s, j + 1) {
            Err(p) => {
                proof {
                    assert(spec_product_rest(s@, i as int, accv) == Err::<
                        (SpecMathExpr, int),
                        int,
                    >(p as int));
                }
                Err(p)
            },
            Ok((e, p)) => {
                let ghost e0 = e;
                let mut acc2 = acc;
                acc2.push(e);
                proof {
                    assert(acc2@ == acc0.push(e0));
                    lemma_view_math_list_push(acc0, e0);
                    assert(pos_after(j + 1 as int, p as int) == p as int);
                    assert(spec_product_rest(s@, i as int, accv) == spec_product_rest(
                        s@,
                        p as int,
                        view_math_list(acc2@),
                    ));
                }
                parse_product_rest(s, p, acc2)
            },
        }
    } else {
        proof {
            assert(spec_product_rest(s@, i as int, accv) == Ok::<(SpecMathExpr, int), int>(
                (SpecMathExpr::Product(accv), i as int),
            ));
        }
        Ok((MathExpr::Product(acc), i))
    }
}

/// Parse a power expression starting at `i`.
pub fn parse_power(s: &[u8], i: usize) -> (r: Result<(MathExpr, usize), usize>)
    requires
        i <= s@.len(),
    ensures
        (match r {
            Ok(ep) => spec_parse_power(s@, i as int) == Ok::<(SpecMathExpr, int), int>(
                (ep.0@, ep.1 as int),
            ) && i <= ep.1 <= s@.len(),
            Err(q) => spec_parse_power(s@, i as int) == Err::<(SpecMathExpr, int), int>(q as int),
        }),
    decreases s@.len() - i, 2int,
{
    match parse_primary(s, i) {
        Err(p) => Err(p),
        Ok((e, p)) => {
            let mut acc: Vec<MathExpr> = Vec::new();
            let ghost e0 = e;
            acc.push(e);
            proof {
                assert(view_math_list(acc@.drop_first()) =~= Seq::<SpecMathExpr>::empty());
                assert(view_math_list(acc@) =~= seq![view_math(e0)]);
                assert(pos_after(i as int, p as int) == p as int);
            }
            parse_power_rest(s, p, acc)
        },
    }
}

fn parse_power_rest(s: &[u8], i: usize, acc: Vec<MathExpr>) -> (r: Result<
    (MathExpr, usize),
    usize,
>)
    requires
        i <= s@.len(),
    ensures
        (match r {
            Ok(ep) => spec_power_rest(s@, i as int, view_math_list(acc@)) == Ok::<
                (SpecMathExpr, int),
                int,
            >((ep.0@, ep.1 as int)) && i <= ep.1 <= s@.len(),
            Err(q) => spec_power_rest(s@, i as int, view_math_list(acc@)) == Err::<
                (SpecMathExpr, int),
                int,
            >(q as int),
        }),
    decreases s@.len() - i, 1int,
{
    let ghost acc0 = acc@;
    let ghost accv = view_math_list(acc@);
    let j = skip_ws(s, i);
    if j < s.len() && s[j] == 94 {
        match parse_primary(s, j + 1) {
            Err(p) => {
                proof {
                    assert(spec_power_rest(s@, i as int, accv) == Err::<(SpecMathExpr, int), int>(
                        p as int,
                    ));
                }
                Err(p)
            },
            Ok((e, p)) => {
                let ghost e0 = e;
                let mut acc2 = acc;
                acc2.push(e);
                proof {
                    assert(acc2@ == acc0.push(e0));
                    lemma_view_math_list_push(acc0, e0);
                    assert(pos_after(j + 1 as int, p as int) == p as int);
                    assert(spec_power_rest(s@, i as int, accv) == spec_power_rest(
                        s@,
                        p as int,
                        view_math_list(acc2@),
                    ));
                }
                parse_power_rest(s, p, acc2)
            },
        }
    } else {
        proof {
            assert(spec_power_rest(s@, i as int, accv) == Ok::<(SpecMathExpr, int), int>(
                (SpecMathExpr::Power(accv), i as int),
            ));
        }
        Ok((MathExpr::Power(acc), i))
    }
}

/// Parse a primary expression starting at `i`.
pub fn parse_primary(s: &[u8], i: usize) -> (r: Result<(MathExpr, usize), usize>)
    requires
        i <= s@.len(),
    ensures
        (match r {
            Ok(ep) => spec_parse_primary(s@, i as int) == Ok::<(SpecMathExpr, int), int>(
                (ep.0@, ep.1 as int),
            ) && i <= ep.1 <= s@.len(),
            Err(q) => spec_parse_primary(s@, i as int) == Err::<(SpecMathExpr, int), int>(
                q as int,
            ),
        }),
    decreases s@.len() - i, 0int,
{
    let j = skip_ws(s, i);
    if j >= s.len() {
        Err(j)
    } else {
        let b = s[j];
        if byte_is_digit(b) {
            let (num, p) = get_numeric(s, j);
            proof {
                assert(spec_parse_primary(s@, i as int) == Ok::<(SpecMathExpr, int), int>(
                    (SpecMathExpr::Number(s@.subrange(j as int, p as int)), p as int),
                ));
            }
            Ok((MathExpr::Number(num), p))
        } else if b == 40 {
            match parse_sum(s, j + 1) {
                Err(p) => {
                    proof {
                        assert(spec_parse_primary(s@, i as int) == Err::<
                            (SpecMathExpr, int),
                            int,
                        >(p as int));
                    }
                    Err(p)
                },
                Ok((e, p)) => {
                    let ghost e0 = e;
                    let k2 = skip_ws(s, p);
                    proof {
                        assert(pos_after(j + 1 as int, p as int) == p as int);
                    }
                    if k2 < s.len() && s[k2] == 41 {
                        proof {
                            assert(spec_parse_primary(s@, i as int) == Ok::<
                                (SpecMathExpr, int),
                                int,
                            >((view_math(e0), k2 + 1 as int)));
                        }
                        Ok((e, k2 + 1))
                    } else {
                        proof {
                            assert(spec_parse_primary(s@, i as int) == Err::<
                                (SpecMathExpr, int),
                                int,
                            >(k2 as int));
                        }
                        Err(k2)
                    }
                },
            }
        } else if byte_is_letter(b) {
            let (w, j2) = get_alphanumeric(s, j);
            let ghost wv = w@;
            if is_matrix(w.as_slice()) {
                let j3 = skip_ws(s, j2);
                let (name, p) = get_alphanumeric(s, j3);
                if name.len() > 0 {
                    proof {
                        assert(spec_parse_primary(s@, i as int) == Ok::<(SpecMathExpr, int), int>(
                            (SpecMathExpr::MatrixUse(s@.subrange(j3 as int, p as int)), p as int),
                        ));
                    }
                    Ok((MathExpr::MatrixUse(name), p))
                } else {
                    proof {
                        lemma_alnum_run(s@, j3 as int);
                        assert(spec_parse_primary(s@, i as int) == Err::<
                            (SpecMathExpr, int),
                            int,
                        >(j3 as int));
                    }
                    Err(j3)
                }
            } else if is_fraction(w.as_slice()) {
                let toks: Vec<Vec<u8>> = Vec::new();
                proof {
                    assert(toks.deep_view() =~= Seq::<Seq<u8>>::empty());
                    assert(spec_parse_primary(s@, i as int) == spec_frac_rest(
                        s@,
                        j2 as int,
                        toks.deep_view(),
                    ));
                }
                parse_frac_rest(s, j2, toks)
            } else {
                proof {
                    assert(spec_parse_primary(s@, i as int) == Ok::<(SpecMathExpr, int), int>(
                        (SpecMathExpr::Ident(wv), j2 as int),
                    ));
                }
                Ok((MathExpr::Ident(w), j2))
            }
        } else {
            proof {
                assert(spec_parse_primary(s@, i as int) == Err::<(SpecMathExpr, int), int>(
                    j as int,
                ));
            }
            Err(j)
        }
    }
}

fn parse_frac_rest(s: &[u8], i: usize, acc: Vec<Vec<u8>>) -> (r: Result<(MathExpr, usize), usize>)
    requires
        i <= s@.len(),
    ensures
        (match r {
            Ok(ep) => spec_frac_rest(s@, i as int, acc.deep_view()) == Ok::<
                (SpecMathExpr, int),
                int,
            >((ep.0@, ep.1 as int)) && i <= ep.1 <= s@.len(),
            Err(q) => spec_frac_rest(s@, i as int, acc.deep_view()) == Err::<
                (SpecMathExpr, int),
                int,
            >(q as int),
        }),
    decreases s@.len() - i, 0int,
{
    let ghost acc0 = acc.deep_view();
    let j = skip_ws(s, i);
    if j < s.len() && s[j] == 92 {
        let (tok, p) = get_alphanumeric(s, j + 1);
        let ghost tv = tok@;
        let mut acc2 = acc;
        acc2.push(tok);
        proof {
            assert(acc2.deep_view() =~~= acc0.push(tv));
            assert(spec_frac_rest(s@, i as int, acc0) == spec_frac_rest(
                s@,
                p as int,
                acc2.deep_view(),
            ));
        }
        parse_frac_rest(s, p, acc2)
    } else {
        if acc.len() == 0 {
            proof {
                assert(acc.deep_view().len() == 0);
                assert(spec_frac_rest(s@, i as int, acc0) == Err::<(SpecMathExpr, int), int>(
                    j as int,
                ));
            }
            Err(j)
        } else {
            proof {
                assert(acc.deep_view().len() == acc@.len());
                assert(spec_frac_rest(s@, i as int, acc0) == Ok::<(SpecMathExpr, int), int>(
                    (SpecMathExpr::Fraction(acc0), i as int),
                ));
            }
            Ok((MathExpr::Fraction(acc), i))
        }
    }
}

/// The elements of one bracketed matrix row, starting just past its `[`.
/// Elements are separated by commas and end at the closing `]`; each is
/// trimmed. A row `[]` with nothing but whitespace inside is empty.
pub open spec fn spec_row_elems(s: Seq<u8>, i: int, acc: Seq<Seq<u8>>) -> Result<
    (Seq<Seq<u8>>, int),
    int,
>
    decreases remaining(s, i), 0int, when 0 <= i <= s.len()
{
    let q = find_elem_end(s, i);
    proof {
        lemma_find_elem_end(s, i);
    }
    if q < 0 {
        Err(s.len() as int)
    } else {
        let elem = spec_trim(s.subrange(i, q));
        if s[q] == 44 {
            spec_row_elems(s, q + 1, acc.push(elem))
        } else {
            if acc.len() == 0 && elem.len() == 0 {
                Ok((acc, q + 1))
            } else {
                Ok((acc.push(elem), q + 1))
            }
        }
    }
}

/// The rows of a matrix literal, starting just past the outer `[`. Rows are
/// bracketed groups; whitespace and commas may separate them; the outer `]`
/// ends the literal.
pub open spec fn spec_matrix_rows(s: Seq<u8>, i: int, acc: Seq<Seq<Seq<u8>>>) -> Result<
    (Seq<Seq<Seq<u8>>>, int),
    int,
>
    decreases remaining(s, i), 1int, when 0 <= i <= s.len()
{
    let j = i + ws_run(s, i);
    proof {
        lemma_ws_run(s, i);
    }
    if j >= s.len() {
        Err(j)
    } else if s[j] == 44 {
        spec_matrix_rows(s, j + 1, acc)
    } else if s[j] == 93 {
        Ok((acc, j + 1))
    } else if s[j] == 91 {
        match spec_row_elems(s, j + 1, Seq::<Seq<u8>>::empty()) {
            Err(p) => Err(p),
            Ok((row, p)) => spec_matrix_rows(s, pos_after(j + 1, p), acc.push(row)),
        }
    } else {
        Err(j)
    }
}

/// A whole matrix literal: `[` rows `]`, in the single-line or the
/// multi-line form.
pub open spec fn spec_parse_matrix(s: Seq<u8>, i: int) -> Result<(Seq<Seq<Seq<u8>>>, int), int> {
    if 0 <= i && i < s.len() && s[i] == 91 {
        spec_matrix_rows(s, i + 1, Seq::<Seq<Seq<u8>>>::empty())
    } else {
        Err(i)
    }
}

pub proof fn lemma_row_elems_bound(s: Seq<u8>, i: int, acc: Seq<Seq<u8>>)
    requires
        0 <= i <= s.len(),
    ensures
        (match spec_row_elems(s, i, acc) {
            Ok(rp) => i <= rp.1 <= s.len(),
            Err(e) => true,
        }),
    decreases remaining(s, i), 0int,
{
    let q = find_elem_end(s, i);
    lemma_find_elem_end(s, i);
    if q < 0 {
    } else {
        let elem = spec_trim(s.subrange(i, q));
        if s[q] == 44 {
            lemma_row_elems_bound(s, q + 1, acc.push(elem));
        }
    }
}

pub proof fn lemma_matrix_rows_bound(s: Seq<u8>, i: int, acc: Seq<Seq<Seq<u8>>>)
    requires
        0 <= i <= s.len(),
    ensures
        (match spec_matrix_rows(s, i, acc) {
            Ok(rp) => i <= rp.1 <= s.len(),
            Err(e) => true,
        }),
    decreases remaining(s, i), 1int,
{
    let j = i + ws_run(s, i);
    lemma_ws_run(s, i);
    if j >= s.len() {
    } else if s[j] == 44 {
        lemma_matrix_rows_bound(s, j + 1, acc);
    } else if s[j] == 93 {
    } else if s[j] == 91 {
        lemma_row_elems_bound(s, j + 1, Seq::<Seq<u8>>::empty());
        match spec_row_elems(s, j + 1, Seq::<Seq<u8>>::empty()) {
            Err(p) => {},
            Ok(rp) => {
                lemma_matrix_rows_bound(s, pos_after(j + 1, rp.1), acc.push(rp.0));
            },
        }
    }
}

/// Bounds of a successful matrix-literal parse.
pub proof fn lemma_parse_matrix_bound(s: Seq<u8>, i: int)
    ensures
        (match spec_parse_matrix(s, i) {
            Ok(rp) => i < rp.1 <= s.len(),
            Err(e) => true,
        }),
{
    if 0 <= i && i < s.len() && s[i] == 91 {
        lemma_matrix_rows_bound(s, i + 1, Seq::<Seq<Seq<u8>>>::empty());
    }
}

fn row_elems(s: &[u8], i: usize, acc: Vec<Vec<u8>>) -> (r: Result<(Vec<Vec<u8>>, usize), usize>)
    requires
        i <= s@.len(),
    ensures
        (match r {
            Ok(ep) => spec_row_elems(s@, i as int, acc.deep_view()) == Ok::<
                (Seq<Seq<u8>>, int),
                int,
            >((ep.0.deep_view(), ep.1 as int)) && i <= ep.1 <= s@.len(),
            Err(q) => spec_row_elems(s@, i as int, acc.deep_view()) == Err::<
                (Seq<Seq<u8>>, int),
                int,
            >(q as int),
        }),
    decreases s@.len() - i,
{
    let ghost acc0 = acc.deep_view();
    match find_elem_end_exec(s, i) {
        None => {
            proof {
                assert(spec_row_elems(s@, i as int, acc0) == Err::<(Seq<Seq<u8>>, int), int>(
                    s@.len() as int,
                ));
            }
            Err(s.len())
        },
        Some(q) => {
            let part = vstd::slice::slice_subrange(s, i, q);
            let elem = trim_bytes(part);
            let ghost ev = elem@;
            if s[q] == 44 {
                let mut acc2 = acc;
                acc2.push(elem);
                proof {
                    assert(acc2.deep_view() =~~= acc0.push(ev));
                    assert(spec_row_elems(s@, i as int, acc0) == spec_row_elems(
                        s@,
                        q + 1 as int,
                        acc2.deep_view(),
                    ));
                }
                row_elems(s, q + 1, acc2)
            } else {
                if acc.len() == 0 && elem.len() == 0 {
                    proof {
                        assert(acc0.len() == 0);
                        assert(spec_row_elems(s@, i as int, acc0) == Ok::<
                            (Seq<Seq<u8>>, int),
                            int,
                        >((acc0, q + 1 as int)));
                    }
                    Ok((acc, q + 1))
                } else {
                    let mut acc2 = acc;
                    acc2.push(elem);
                    proof {
                        assert(acc2.deep_view() =~~= acc0.push(ev));
                        assert(spec_row_elems(s@, i as int, acc0) == Ok::<
                            (Seq<Seq<u8>>, int),
                            int,
                        >((acc0.push(ev), q + 1 as int)));
                    }
                    Ok((acc2, q + 1))
                }
            }
        },
    }
}

fn matrix_rows(s: &[u8], i: usize, acc: Vec<Vec<Vec<u8>>>) -> (r: Result<
    (Vec<Vec<Vec<u8>>>, usize),
    usize,
>)
    requires
        i <= s@.len(),
    ensures
        (match r {
            Ok(ep) => spec_matrix_rows(s@, i as int, acc.deep_view()) == Ok::<
                (Seq<Seq<Seq<u8>>>, int),
                int,
            >((ep.0.deep_view(), ep.1 as int)) && i <= ep.1 <= s@.len(),
            Err(q) => spec_matrix_rows(s@, i as int, acc.deep_view()) == Err::<
                (Seq<Seq<Seq<u8>>>, int),
                int,
            >(q as int),
        }),
    decreases s@.len() - i,
{
    let ghost acc0 = acc.deep_view();
    let j = skip_ws(s, i);
    if j >= s.len() {
        Err(j)
    } else if s[j] == 44 {
        proof {
            assert(spec_matrix_rows(s@, i as int, acc0) == spec_matrix_rows(
                s@,
                j + 1 as int,
                acc0,
            ));
        }
        matrix_rows(s, j + 1, acc)
    } else if s[j] == 93 {
        proof {
            assert(spec_matrix_rows(s@, i as int, acc0) == Ok::<(Seq<Seq<Seq<u8>>>, int), int>(
                (acc0, j + 1 as int),
            ));
        }
        Ok((acc, j + 1))
    } else if s[j] == 91 {
        let empty_row: Vec<Vec<u8>> = Vec::new();
        proof {
            assert(empty_row.deep_view() =~= Seq::<Seq<u8>>::empty());
        }
        match row_elems(s, j + 1, empty_row) {
            Err(p) => {
                proof {
                    assert(spec_matrix_rows(s@, i as int, acc0) == Err::<
                        (Seq<Seq<Seq<u8>>>, int),
                        int,
                    >(p as int));
                }
                Err(p)
            },
            Ok((row, p)) => {
                let ghost rv = row.deep_view();
                let mut acc2 = acc;
                acc2.push(row);
                proof {
                    assert(acc2.deep_view() =~~= acc0.push(rv));
                    assert(pos_after(j + 1 as int, p as int) == p as int);
                    assert(spec_matrix_rows(s@, i as int, acc0) == spec_matrix_rows(
                        s@,
                        p as int,
                        acc2.deep_view(),
                    ));
                }
                matrix_rows(s, p, acc2)
            },
        }
    } else {
        proof {
            assert(spec_matrix_rows(s@, i as int, acc0) == Err::<(Seq<Seq<Seq<u8>>>, int), int>(
                j as int,
            ));
        }
        Err(j)
    }
}

/// Parse a matrix literal starting at `i` (at the outer `[`).
pub fn parse_matrix(s: &[u8], i: usize) -> (r: Result<(Vec<Vec<Vec<u8>>>, usize), usize>)
    requires
        i <= s@.len(),
    ensures
        (match r {
            Ok(ep) => spec_parse_matrix(s@, i as int) == Ok::<(Seq<Seq<Seq<u8>>>, int), int>(
                (ep.0.deep_view(), ep.1 as int),
            ) && i < ep.1 <= s@.len(),
            Err(q) => spec_parse_matrix(s@, i as int) == Err::<(Seq<Seq<Seq<u8>>>, int), int>(
                q as int,
            ),
        }),
{
    if i < s.len() && s[i] == 91 {
        let acc: Vec<Vec<Vec<u8>>> = Vec::new();
        proof {
            assert(acc.deep_view() =~= Seq::<Seq<Seq<u8>>>::empty());
        }
        matrix_rows(s, i + 1, acc)
    } else {
        Err(i)
    }
}

/// Bytes allowed in a (possibly dotted) identifier reference.
pub open spec fn is_identch(b: u8) -> bool {
    is_alnum(b) || b == 46 || b == 95
}

/// A nonempty run of identifier bytes that starts with a letter, such as
/// `p1.get_name` or `print_hello`.
pub open spec fn is_dotted_ident(t: Seq<u8>) -> bool {
    t.len() > 0 && is_letter(t[0]) && (forall|k: int| 0 <= k < t.len() ==> is_identch(t[k]))
}

fn is_dotted_ident_exec(t: &[u8]) -> (r: bool)
    ensures
        r == is_dotted_ident(t@),
{
    if t.len() == 0 {
        return false;
    }
    if !byte_is_letter(t[0]) {
        return false;
    }
    let mut k: usize = 0;
    while k < t.len()
        invariant
            0 <= k <= t@.len(),
            forall|x: int| 0 <= x < k ==> is_identch(t@[x]),
        decreases t@.len() - k,
    {
        let b = t[k];
        if !(crate::util::byte_is_alnum(b) || b == 46 || b == 95) {
            return false;
        }
        k = k + 1;
    }
    true
}

/// Split a call's argument text at top-level commas, trimming each piece.
pub open spec fn spec_split_args(t: Seq<u8>, i: int, start: int, depth: int, acc: Seq<Seq<u8>>)
    -> Seq<Seq<u8>>
    decreases t.len() - i when 0 <= start <= i <= t.len()
{
    if i >= t.len() {
        acc.push(spec_trim(t.subrange(start, t.len() as int)))
    } else if t[i] == 44 && depth == 0 {
        spec_split_args(t, i + 1, i + 1, 0, acc.push(spec_trim(t.subrange(start, i))))
    } else if t[i] == 40 {
        spec_split_args(t, i + 1, start, depth + 1, acc)
    } else if t[i] == 41 {
        spec_split_args(t, i + 1, start, depth - 1, acc)
    } else {
        spec_split_args(t, i + 1, start, depth, acc)
    }
}

fn split_args_exec(t: &[u8]) -> (r: Vec<Vec<u8>>)
    ensures
        r.deep_view() == spec_split_args(t@, 0, 0, 0, Seq::<Seq<u8>>::empty()),
{
    let mut acc: Vec<Vec<u8>> = Vec::new();
    let mut start: usize = 0;
    let mut depth: u64 = 0;
    let mut neg: u64 = 0;
    let mut i: usize = 0;
    proof {
        assert(acc.deep_view() =~= Seq::<Seq<u8>>::empty());
    }
    while i < t.len()
        invariant
            0 <= start <= i <= t@.len(),
            depth <= i,
            neg <= i,
            depth == 0 || neg == 0,
            spec_split_args(t@, 0, 0, 0, Seq::<Seq<u8>>::empty()) == spec_split_args(
                t@,
                i as int,
                start as int,
                depth as int - neg as int,
                acc.deep_view(),
            ),
        decreases t@.len() - i,
    {
        let ghost acc0 = acc.deep_view();
        let ghost net = depth as int - neg as int;
        let ghost i0 = i as int;
        let ghost start0 = start as int;
        let b = t[i];
        if b == 44 && depth == 0 && neg == 0 {
            let part = vstd::slice::slice_subrange(t, start, i);
            let piece = trim_bytes(part);
            let ghost pv = piece@;
            acc.push(piece);
            proof {
                assert(acc.deep_view() =~~= acc0.push(pv));
                assert(spec_split_args(t@, i0, start0, 0, acc0) == spec_split_args(
                    t@,
                    i0 + 1,
                    i0 + 1,
                    0,
                    acc0.push(spec_trim(t@.subrange(start0, i0))),
                ));
            }
            start = i + 1;
        } else if b == 40 {
            if neg > 0 {
                neg = neg - 1;
            } else {
                depth = depth + 1;
            }
            proof {
                assert(spec_split_args(t@, i0, start0, net, acc0) == spec_split_args(
                    t@,
                    i0 + 1,
                    start0,
                    net + 1,
                    acc0,
                ));
            }
        } else if b == 41 {
            if depth > 0 {
                depth = depth - 1;
            } else {
                neg = neg + 1;
            }
            proof {
                assert(spec_split_args(t@, i0, start0, net, acc0) == spec_split_args(
                    t@,
                    i0 + 1,
                    start0,
                    net - 1,
                    acc0,
                ));
            }
        } else {
            proof {
                assert(spec_split_args(t@, i0, start0, net, acc0) == spec_split_args(
                    t@,
                    i0 + 1,
                    start0,
                    net,
                    acc0,
                ));
            }
        }
        i = i + 1;
    }
    let part = vstd::slice::slice_subrange(t, start, t.len());
    let piece = trim_bytes(part);
    let ghost pv = piece@;
    let ghost acc0 = acc.deep_view();
    acc.push(piece);
    proof {
        assert(acc.deep_view() =~~= acc0.push(pv));
    }
    acc
}

/// Classify the body of a code-interpolation marker: a bare identifier
/// reference, a call `name(args...)`, or anything else kept raw. The body is
/// trimmed first.
pub open spec fn spec_parse_code(t: Seq<u8>) -> crate::ast::SpecCodeExpr {
    let u = spec_trim(t);
    if u.len() == 0 {
        crate::ast::SpecCodeExpr::Raw(u)
    } else if is_dotted_ident(u) {
        crate::ast::SpecCodeExpr::IdentRef(u)
    } else {
        let q = find_byte(u, 0, 40);
        if 0 < q && q < u.len() && u[u.len() - 1] == 41 && is_dotted_ident(u.subrange(0, q)) {
            let inner = u.subrange(q + 1, u.len() - 1);
            let args = if spec_trim(inner).len() == 0 {
                Seq::<Seq<u8>>::empty()
            } else {
                spec_split_args(inner, 0, 0, 0, Seq::<Seq<u8>>::empty())
            };
            crate::ast::SpecCodeExpr::Call(u.subrange(0, q), args)
        } else {
            crate::ast::SpecCodeExpr::Raw(u)
        }
    }
}

/// Parse the body of a code-interpolation marker.
pub fn parse_code(t: &[u8]) -> (r: crate::ast::CodeExpr)
    ensures
        r@ == spec_parse_code(t@),
{
    let u = trim_bytes(t);
    let ghost uv = u@;
    if u.len() == 0 {
        return crate::ast::CodeExpr::Raw(u);
    }
    if is_dotted_ident_exec(u.as_slice()) {
        return crate::ast::CodeExpr::IdentRef(u);
    }
    match find_byte_exec(u.as_slice(), 0, 40) {
        Some(q) => {
            if q > 0 && u[u.len() - 1] == 41 {
                let name_part = vstd::slice::slice_subrange(u.as_slice(), 0, q);
                if is_dotted_ident_exec(name_part) {
                    let name = vstd::slice::slice_to_vec(name_part);
                    proof {
                        lemma_find_byte(uv, 0, 40);
                        assert(uv[q as int] == 40);
                        assert(uv[uv.len() - 1] == 41);
                        assert(q + 1 <= uv.len() - 1);
                    }
                    let inner = vstd::slice::slice_subrange(u.as_slice(), q + 1, u.len() - 1);
                    let inner_trimmed = trim_bytes(inner);
                    let args: Vec<Vec<u8>> = if inner_trimmed.len() == 0 {
                        Vec::new()
                    } else {
                        split_args_exec(inner)
                    };
                    proof {
                        if spec_trim(inner@).len() == 0 {
                            assert(args.deep_view() =~= Seq::<Seq<u8>>::empty());
                        }
                    }
                    crate::ast::CodeExpr::Call(name, args)
                } else {
                    crate::ast::CodeExpr::Raw(u)
                }
            } else {
                crate::ast::CodeExpr::Raw(u)
            }
        },
        None => crate::ast::CodeExpr::Raw(u),
    }
}

/// The literal `end(python)`.
pub open spec fn lit_end_python() -> Seq<u8> {
    seq![101u8, 110, 100, 40, 112, 121, 116, 104, 111, 110, 41]
}

/// The literal `end(document)`.
pub open spec fn lit_end_document() -> Seq<u8> {
    seq![101u8, 110, 100, 40, 100, 111, 99, 117, 109, 101, 110, 116, 41]
}

/// The start of a block math marker, `$$(`.
pub open spec fn lit_block_math() -> Seq<u8> {
    seq![36u8, 36, 40]
}

/// The start of an inline math marker, `$(`.
pub open spec fn lit_inline_math() -> Seq<u8> {
    seq![36u8, 40]
}

/// The start of a code-interpolation marker, `>(`.
pub open spec fn lit_code_output() -> Seq<u8> {
    seq![62u8, 40]
}

/// The view of a sequence of setup items.
pub open spec fn view_setup_items(v: Seq<SetupItem>) -> Seq<SpecSetupItem> {
    v.map_values(|it: SetupItem| it@)
}

/// The view of a sequence of document nodes.
pub open spec fn view_doc_nodes(v: Seq<DocNode>) -> Seq<SpecDocNode> {
    v.map_values(|n: DocNode| n@)
}

/// The items of the setup block, read up to and past `end(setup)`.
pub open spec fn spec_parse_setup(s: Seq<u8>, i: int) -> Result<(Seq<SpecSetupItem>, int), int>
    decreases remaining(s, i) when 0 <= i <= s.len()
{
    let j = i + ws_run(s, i);
    proof {
        lemma_ws_run(s, i);
    }
    if j >= s.len() {
        Err(j)
    } else if !is_letter(s[j]) {
        Err(j)
    } else {
        proof {
            lemma_alnum_run(s, j);
        }
        let n = alnum_run(s, j);
        let w = s.subrange(j, j + n);
        let j2 = j + n;
        if w == kw_end() {
            if j2 < s.len() && s[j2] == 40 {
                proof {
                    lemma_alnum_run(s, j2 + 1);
                }
                let m = alnum_run(s, j2 + 1);
                let nm = s.subrange(j2 + 1, j2 + 1 + m);
                let j3 = j2 + 1 + m;
                if j3 < s.len() && s[j3] == 41 {
                    if nm == kw_setup() {
                        Ok((Seq::<SpecSetupItem>::empty(), j3 + 1))
                    } else {
                        Err(j2 + 1)
                    }
                } else {
                    Err(j3)
                }
            } else {
                Err(j2)
            }
        } else if w == kw_begin() {
            if j2 < s.len() && s[j2] == 40 {
                proof {
                    lemma_alnum_run(s, j2 + 1);
                }
                let m = alnum_run(s, j2 + 1);
                let nm = s.subrange(j2 + 1, j2 + 1 + m);
                let j3 = j2 + 1 + m;
                if j3 < s.len() && s[j3] == 41 {
                    if nm == kw_python() {
                        let p = j3 + 1;
                        let q = find_lit(s, p, lit_end_python());
                        proof {
                            lemma_find_lit(s, p, lit_end_python());
                        }
                        if q < 0 {
                            Err(p)
                        } else {
                            let body = s.subrange(p, q);
                            match spec_parse_setup(s, q + 11) {
                                Err(e) => Err(e),
                                Ok((items, e)) => Ok(
                                    (seq![SpecSetupItem::CodeRegion(body)] + items, e),
                                ),
                            }
                        }
                    } else {
                        Err(j2 + 1)
                    }
                } else {
                    Err(j3)
                }
            } else {
                Err(j2)
            }
        } else if w == kw_documentclass() || w == kw_title() || w == kw_author() {
            let q = find_byte(s, j2, 41);
            proof {
                lemma_find_byte(s, j2, 41);
            }
            if q < 0 {
                Err(j2)
            } else {
                let raw = s.subrange(j, q + 1);
                let item = if w == kw_documentclass() {
                    SpecSetupItem::DocumentClass(raw)
                } else if w == kw_title() {
                    SpecSetupItem::Title(raw)
                } else {
                    SpecSetupItem::Author(raw)
                };
                match spec_parse_setup(s, q + 1) {
                    Err(e) => Err(e),
                    Ok((items, e)) => Ok((seq![item] + items, e)),
                }
            }
        } else {
            let k = j2 + ws_run(s, j2);
            proof {
                lemma_ws_run(s, j2);
            }
            if k < s.len() && s[k] == 61 {
                let k2 = k + 1 + ws_run(s, k + 1);
                proof {
                    lemma_ws_run(s, k + 1);
                }
                if k2 < s.len() && s[k2] == 91 {
                    match spec_parse_matrix(s, k2) {
                        Err(e) => Err(e),
                        Ok((rows, p)) => match spec_parse_setup(s, pos_after(k2 + 1, p)) {
                            Err(e) => Err(e),
                            Ok((items, e)) => Ok(
                                (seq![SpecSetupItem::MatrixDef(w, rows)] + items, e),
                            ),
                        },
                    }
                } else {
                    let qn = find_byte(s, k + 1, 10);
                    proof {
                        lemma_find_byte(s, k + 1, 10);
                    }
                    let endpos = if qn < 0 {
                        s.len() as int
                    } else {
                        qn
                    };
                    let v = spec_trim(s.subrange(k + 1, endpos));
                    if v.len() == 0 {
                        Err(k)
                    } else {
                        match spec_parse_setup(s, endpos) {
                            Err(e) => Err(e),
                            Ok((items, e)) => Ok((seq![SpecSetupItem::VarDef(w, v)] + items, e)),
                        }
                    }
                }
            } else {
                Err(k)
            }
        }
    }
}

/// Is one of the document-block markers at position `j`?
pub open spec fn marker_at(s: Seq<u8>, j: int) -> bool {
    matches_at(s, j, lit_block_math()) || matches_at(s, j, lit_inline_math()) || matches_at(
        s,
        j,
        lit_code_output(),
    ) || matches_at(s, j, lit_end_document())
}

/// The first marker position at or after `i`, or the input's end.
pub open spec fn next_marker(s: Seq<u8>, i: int) -> int
    decreases s.len() - i when 0 <= i <= s.len()
{
    if i >= s.len() {
        s.len() as int
    } else if marker_at(s, i) {
        i
    } else {
        next_marker(s, i + 1)
    }
}

pub proof fn lemma_next_marker(s: Seq<u8>, i: int)
    requires
        0 <= i <= s.len(),
    ensures
        i <= next_marker(s, i) <= s.len(),
        next_marker(s, i) < s.len() ==> marker_at(s, next_marker(s, i)),
    decreases s.len() - i,
{
    if i >= s.len() {
    } else if marker_at(s, i) {
    } else {
        lemma_next_marker(s, i + 1);
    }
}

fn marker_at_exec(s: &[u8], j: usize) -> (r: bool)
    ensures
        r == marker_at(s@, j as int),
{
    let bm: [u8; 3] = [36, 36, 40];
    let im: [u8; 2] = [36, 40];
    let cm: [u8; 2] = [62, 40];
    let ed: [u8; 13] = [101, 110, 100, 40, 100, 111, 99, 117, 109, 101, 110, 116, 41];
    proof {
        assert(bm@ =~= lit_block_math());
        assert(im@ =~= lit_inline_math());
        assert(cm@ =~= lit_code_output());
        assert(ed@ =~= lit_end_document());
    }
    matches_at_exec(s, j, bm.as_slice()) || matches_at_exec(s, j, im.as_slice())
        || matches_at_exec(s, j, cm.as_slice()) || matches_at_exec(s, j, ed.as_slice())
}

fn next_marker_exec(s: &[u8], i: usize) -> (r: usize)
    requires
        i <= s@.len(),
    ensures
        r as int == next_marker(s@, i as int),
        i <= r <= s@.len(),
        r < s@.len() ==> marker_at(s@, r as int),
{
    proof {
        lemma_next_marker(s@, i as int);
    }
    let mut j: usize = i;
    while j < s.len()
        invariant
            i <= j <= s@.len(),
            next_marker(s@, i as int) == next_marker(s@, j as int),
        decreases s@.len() - j,
    {
        if marker_at_exec(s, j) {
            proof {
                assert(next_marker(s@, j as int) == j as int);
            }
            return j;
        }
        proof {
            assert(next_marker(s@, j as int) == next_marker(s@, j + 1));
        }
        j = j + 1;
    }
    proof {
        assert(next_marker(s@, j as int) == s@.len() as int);
    }
    j
}

/// The nodes of the document block, read up to and past `end(document)`.
/// Prose runs between markers become text nodes; `$(...)`, `$$(...)` and
/// `>(...)` become math and code nodes.
pub open spec fn spec_parse_doc(s: Seq<u8>, i: int) -> Result<(Seq<SpecDocNode>, int), int>
    decreases remaining(s, i) when 0 <= i <= s.len()
{
    let j = next_marker(s, i);
    proof {
        lemma_next_marker(s, i);
    }
    let txt = if j > i {
        seq![SpecDocNode::Text(s.subrange(i, j))]
    } else {
        Seq::<SpecDocNode>::empty()
    };
    if j >= s.len() {
        Err(j)
    } else if matches_at(s, j, lit_end_document()) {
        Ok((txt, j + 13))
    } else if matches_at(s, j, lit_block_math()) {
        match spec_parse_sum(s, j + 3) {
            Err(p) => Err(p),
            Ok((e, p)) => {
                let k = pos_after(j + 3, p);
                let k2 = k + ws_run(s, k);
                if k2 < s.len() && s[k2] == 41 {
                    match spec_parse_doc(s, pos_after(j + 3, k2 + 1)) {
                        Err(e2) => Err(e2),
                        Ok((nodes, p2)) => Ok((txt + seq![SpecDocNode::NewlineMath(e)] + nodes, p2)),
                    }
                } else {
                    Err(k2)
                }
            },
        }
    } else if matches_at(s, j, lit_inline_math()) {
        match spec_parse_sum(s, j + 2) {
            Err(p) => Err(p),
            Ok((e, p)) => {
                let k = pos_after(j + 2, p);
                let k2 = k + ws_run(s, k);
                if k2 < s.len() && s[k2] == 41 {
                    match spec_parse_doc(s, pos_after(j + 2, k2 + 1)) {
                        Err(e2) => Err(e2),
                        Ok((nodes, p2)) => Ok((txt + seq![SpecDocNode::InlineMath(e)] + nodes, p2)),
                    }
                } else {
                    Err(k2)
                }
            },
        }
    } else {
        proof {
            assert(matches_at(s, j, lit_code_output()));
        }
        let c = find_close(s, j + 2, 1);
        proof {
            lemma_find_close(s, j + 2, 1);
        }
        if c < 0 {
            Err(j)
        } else {
            let body = s.subrange(j + 2, c - 1);
            let node = SpecDocNode::CodeOutput(spec_parse_code(body));
            match spec_parse_doc(s, c) {
                Err(e2) => Err(e2),
                Ok((nodes, p2)) => Ok((txt + seq![node] + nodes, p2)),
            }
        }
    }
}

/// A `word(name)` marker, e.g. `begin(setup)`, with surrounding whitespace
/// allowed before the word.
pub open spec fn spec_parse_named_marker(s: Seq<u8>, i: int, word: Seq<u8>, name: Seq<u8>)
    -> Result<int, int> {
    let j = i + ws_run(s, i);
    if j > s.len() {
        Err(j)
    } else {
        let n = alnum_run(s, j);
        let w = s.subrange(j, j + n);
        let j2 = j + n;
        if w != word {
            Err(j)
        } else if j2 < s.len() && s[j2] == 40 {
            let m = alnum_run(s, j2 + 1);
            let nm = s.subrange(j2 + 1, j2 + 1 + m);
            let j3 = j2 + 1 + m;
            if j3 < s.len() && s[j3] == 41 {
                if nm == name {
                    Ok(j3 + 1)
                } else {
                    Err(j2 + 1)
                }
            } else {
                Err(j3)
            }
        } else {
            Err(j2)
        }
    }
}

/// The whole input: `begin(setup)` items `end(setup)` then
/// `begin(document)` nodes `end(document)`, with only whitespace after.
pub open spec fn spec_parse_file(s: Seq<u8>) -> Result<
    (Seq<SpecSetupItem>, Seq<SpecDocNode>),
    int,
> {
    match spec_parse_named_marker(s, 0, kw_begin(), kw_setup()) {
        Err(p) => Err(p),
        Ok(p1) => match spec_parse_setup(s, pos_after(0, p1)) {
            Err(p) => Err(p),
            Ok((items, p2)) => match spec_parse_named_marker(
                s,
                pos_after(0, p2),
                kw_begin(),
                kw_document(),
            ) {
                Err(p) => Err(p),
                Ok(p3) => match spec_parse_doc(s, pos_after(0, p3)) {
                    Err(p) => Err(p),
                    Ok((nodes, p4)) => {
                        let k = pos_after(0, p4);
                        let k2 = k + ws_run(s, k);
                        if k2 < s.len() {
                            Err(k2)
                        } else {
                            Ok((items, nodes))
                        }
                    },
                },
            },
        },
    }
}

fn parse_named_marker(s: &[u8], i: usize, word: &[u8], name: &[u8]) -> (r: Result<usize, usize>)
    requires
        i <= s@.len(),
    ensures
        (match r {
            Ok(p) => spec_parse_named_marker(s@, i as int, word@, name@) == Ok::<int, int>(
                p as int,
            ) && i <= p <= s@.len(),
            Err(q) => spec_parse_named_marker(s@, i as int, word@, name@) == Err::<int, int>(
                q as int,
            ),
        }),
{
    let j = skip_ws(s, i);
    let (w, j2) = get_alphanumeric(s, j);
    if !bytes_eq(w.as_slice(), word) {
        return Err(j);
    }
    if j2 < s.len() && s[j2] == 40 {
        let (nm, j3) = get_alphanumeric(s, j2 + 1);
        if j3 < s.len() && s[j3] == 41 {
            if bytes_eq(nm.as_slice(), name) {
                Ok(j3 + 1)
            } else {
                Err(j2 + 1)
            }
        } else {
            Err(j3)
        }
    } else {
        Err(j2)
    }
}

fn parse_setup_items(s: &[u8], i: usize) -> (r: Result<(Vec<SetupItem>, usize), usize>)
    requires
        i <= s@.len(),
    ensures
        (match r {
            Ok(ep) => spec_parse_setup(s@, i as int) == Ok::<(Seq<SpecSetupItem>, int), int>(
                (view_setup_items(ep.0@), ep.1 as int),
            ) && i <= ep.1 <= s@.len(),
            Err(q) => spec_parse_setup(s@, i as int) == Err::<(Seq<SpecSetupItem>, int), int>(
                q as int,
            ),
        }),
    decreases s@.len() - i,
{
    let j = skip_ws(s, i);
    if j >= s.len() {
        return Err(j);
    }
    if !byte_is_letter(s[j]) {
        return Err(j);
    }
    let (w, j2) = get_alphanumeric(s, j);
    let ghost wv = w@;
    if is_end(w.as_slice()) {
        if j2 < s.len() && s[j2] == 40 {
            let (nm, j3) = get_alphanumeric(s, j2 + 1);
            if j3 < s.len() && s[j3] == 41 {
                if is_setup(nm.as_slice()) {
                    let out: Vec<SetupItem> = Vec::new();
                    proof {
                        assert(view_setup_items(out@) =~= Seq::<SpecSetupItem>::empty());
                    }
                    Ok((out, j3 + 1))
                } else {
                    Err(j2 + 1)
                }
            } else {
                Err(j3)
            }
        } else {
            Err(j2)
        }
    } else if is_begin(w.as_slice()) {
        if j2 < s.len() && s[j2] == 40 {
            let (nm, j3) = get_alphanumeric(s, j2 + 1);
            if j3 < s.len() && s[j3] == 41 {
                if crate::kw::is_python(nm.as_slice()) {
                    let p = j3 + 1;
                    let ep: [u8; 11] = [101, 110, 100, 40, 112, 121, 116, 104, 111, 110, 41];
                    proof {
                        assert(ep@ =~= lit_end_python());
                    }
                    match find_lit_exec(s, p, ep.as_slice()) {
                        None => Err(p),
                        Some(q) => {
                            let body_slice = vstd::slice::slice_subrange(s, p, q);
                            let body = vstd::slice::slice_to_vec(body_slice);
                            match parse_setup_items(s, q + 11) {
                                Err(e) => Err(e),
                                Ok((items, e)) => {
                                    let mut out: Vec<SetupItem> = Vec::new();
                                    out.push(SetupItem::CodeRegion(body));
                                    let mut items2 = items;
                                    let ghost iv = view_setup_items(items2@);
                                    out.append(&mut items2);
                                    proof {
                                        assert(view_setup_items(out@) =~= seq![
                                            SpecSetupItem::CodeRegion(s@.subrange(
                                                p as int,
                                                q as int,
                                            )),
                                        ] + iv);
                                    }
                                    Ok((out, e))
                                },
                            }
                        },
                    }
                } else {
                    Err(j2 + 1)
                }
            } else {
                Err(j3)
            }
        } else {
            Err(j2)
        }
    } else if is_documentclass(w.as_slice()) || is_title(w.as_slice()) || is_author(
        w.as_slice(),
    ) {
        match find_byte_exec(s, j2, 41) {
            None => Err(j2),
            Some(q) => {
                let raw_slice = vstd::slice::slice_subrange(s, j, q + 1);
                let raw = vstd::slice::slice_to_vec(raw_slice);
                let item = if is_documentclass(w.as_slice()) {
                    SetupItem::DocumentClass(raw)
                } else if is_title(w.as_slice()) {
                    SetupItem::Title(raw)
                } else {
                    SetupItem::Author(raw)
                };
                let ghost itv = item@;
                match parse_setup_items(s, q + 1) {
                    Err(e) => Err(e),
                    Ok((items, e)) => {
                        let mut out: Vec<SetupItem> = Vec::new();
                        out.push(item);
                        let mut items2 = items;
                        let ghost iv = view_setup_items(items2@);
                        out.append(&mut items2);
                        proof {
                            assert(view_setup_items(out@) =~= seq![itv] + iv);
                        }
                        Ok((out, e))
                    },
                }
            },
        }
    } else {
        let k = skip_ws(s, j2);
        if k < s.len() && s[k] == 61 {
            let k2 = skip_ws(s, k + 1);
            if k2 < s.len() && s[k2] == 91 {
                match parse_matrix(s, k2) {
                    Err(e) => {
                        proof {
                            assert(spec_parse_setup(s@, i as int) == Err::<
                                (Seq<SpecSetupItem>, int),
                                int,
                            >(e as int));
                        }
                        Err(e)
                    },
                    Ok((rows, p)) => {
                        let ghost rv = rows.deep_view();
                        proof {
                            assert(pos_after(k2 + 1 as int, p as int) == p as int);
                        }
                        match parse_setup_items(s, p) {
                            Err(e) => Err(e),
                            Ok((items, e)) => {
                                let mut out: Vec<SetupItem> = Vec::new();
                                out.push(SetupItem::MatrixDef(w, rows));
                                let mut items2 = items;
                                let ghost iv = view_setup_items(items2@);
                                out.append(&mut items2);
                                proof {
                                    assert(view_setup_items(out@) =~= seq![
                                        SpecSetupItem::MatrixDef(wv, rv),
                                    ] + iv);
                                }
                                Ok((out, e))
                            },
                        }
                    },
                }
            } else {
                let endpos = match find_byte_exec(s, k + 1, 10) {
                    None => s.len(),
                    Some(qn) => qn,
                };
                let val_slice = vstd::slice::slice_subrange(s, k + 1, endpos);
                let v = trim_bytes(val_slice);
                if v.len() == 0 {
                    Err(k)
                } else {
                    let ghost vv = v@;
                    match parse_setup_items(s, endpos) {
                        Err(e) => Err(e),
                        Ok((items, e)) => {
                            let mut out: Vec<SetupItem> = Vec::new();
                            out.push(SetupItem::VarDef(w, v));
                            let mut items2 = items;
                            let ghost iv = view_setup_items(items2@);
                            out.append(&mut items2);
                            proof {
                                assert(view_setup_items(out@) =~= seq![
                                    SpecSetupItem::VarDef(wv, vv),
                                ] + iv);
                            }
                            Ok((out, e))
                        },
                    }
                }
            }
        } else {
            Err(k)
        }
    }
}

fn parse_doc_nodes(s: &[u8], i: usize) -> (r: Result<(Vec<DocNode>, usize), usize>)
    requires
        i <= s@.len(),
    ensures
        (match r {
            Ok(ep) => spec_parse_doc(s@, i as int) == Ok::<(Seq<SpecDocNode>, int), int>(
                (view_doc_nodes(ep.0@), ep.1 as int),
            ) && i <= ep.1 <= s@.len(),
            Err(q) => spec_parse_doc(s@, i as int) == Err::<(Seq<SpecDocNode>, int), int>(
                q as int,
            ),
        }),
    decreases s@.len() - i,
{
    let j = next_marker_exec(s, i);
    let ghost txt = if j > i {
        seq![SpecDocNode::Text(s@.subrange(i as int, j as int))]
    } else {
        Seq::<SpecDocNode>::empty()
    };
    if j >= s.len() {
        return Err(j);
    }
    let ed: [u8; 13] = [101, 110, 100, 40, 100, 111, 99, 117, 109, 101, 110, 116, 41];
    let bm: [u8; 3] = [36, 36, 40];
    let im: [u8; 2] = [36, 40];
    proof {
        assert(ed@ =~= lit_end_document());
        assert(bm@ =~= lit_block_math());
        assert(im@ =~= lit_inline_math());
    }
    if matches_at_exec(s, j, ed.as_slice()) {
        let mut out: Vec<DocNode> = Vec::new();
        if j > i {
            let t_slice = vstd::slice::slice_subrange(s, i, j);
            out.push(DocNode::Text(vstd::slice::slice_to_vec(t_slice)));
        }
        proof {
            assert(view_doc_nodes(out@) =~= txt);
        }
        Ok((out, j + 13))
    } else if matches_at_exec(s, j, bm.as_slice()) {
        match parse_sum(s, j + 3) {
            Err(p) => {
                proof {
                    assert(spec_parse_doc(s@, i as int) == Err::<(Seq<SpecDocNode>, int), int>(
                        p as int,
                    ));
                }
                Err(p)
            },
            Ok((e, p)) => {
                let ghost ev = view_math(e);
                let k2 = skip_ws(s, p);
                proof {
                    assert(pos_after(j + 3 as int, p as int) == p as int);
                }
                if k2 < s.len() && s[k2] == 41 {
                    proof {
                        assert(pos_after(j + 3 as int, k2 + 1 as int) == k2 + 1 as int);
                    }
                    match parse_doc_nodes(s, k2 + 1) {
                        Err(e2) => Err(e2),
                        Ok((nodes, p2)) => {
                            let mut out: Vec<DocNode> = Vec::new();
                            if j > i {
                                let t_slice = vstd::slice::slice_subrange(s, i, j);
                                out.push(DocNode::Text(vstd::slice::slice_to_vec(t_slice)));
                            }
                            out.push(DocNode::NewlineMath(e));
                            let mut nodes2 = nodes;
                            let ghost nv = view_doc_nodes(nodes2@);
                            out.append(&mut nodes2);
                            proof {
                                assert(view_doc_nodes(out@) =~= txt + seq![
                                    SpecDocNode::NewlineMath(ev),
                                ] + nv);
                            }
                            Ok((out, p2))
                        },
                    }
                } else {
                    Err(k2)
                }
            },
        }
    } else if matches_at_exec(s, j, im.as_slice()) {
        match parse_sum(s, j + 2) {
            Err(p) => {
                proof {
                    assert(spec_parse_doc(s@, i as int) == Err::<(Seq<SpecDocNode>, int), int>(
                        p as int,
                    ));
                }
                Err(p)
            },
            Ok((e, p)) => {
                let ghost ev = view_math(e);
                let k2 = skip_ws(s, p);
                proof {
                    assert(pos_after(j + 2 as int, p as int) == p as int);
                }
                if k2 < s.len() && s[k2] == 41 {
                    proof {
                        assert(pos_after(j + 2 as int, k2 + 1 as int) == k2 + 1 as int);
                    }
                    match parse_doc_nodes(s, k2 + 1) {
                        Err(e2) => Err(e2),
                        Ok((nodes, p2)) => {
                            let mut out: Vec<DocNode> = Vec::new();
                            if j > i {
                                let t_slice = vstd::slice::slice_subrange(s, i, j);
                                out.push(DocNode::Text(vstd::slice::slice_to_vec(t_slice)));
                            }
                            out.push(DocNode::InlineMath(e));
                            let mut nodes2 = nodes;
                            let ghost nv = view_doc_nodes(nodes2@);
                            out.append(&mut nodes2);
                            proof {
                                assert(view_doc_nodes(out@) =~= txt + seq![
                                    SpecDocNode::InlineMath(ev),
                                ] + nv);
                            }
                            Ok((out, p2))
                        },
                    }
                } else {
                    Err(k2)
                }
            },
        }
    } else {
        proof {
            assert(matches_at(s@, j as int, lit_code_output()));
        }
        match find_close_exec(s, j + 2) {
            None => {
                proof {
                    assert(spec_parse_doc(s@, i as int) == Err::<(Seq<SpecDocNode>, int), int>(
                        j as int,
                    ));
                }
                Err(j)
            },
            Some(c) => {
                let body_slice = vstd::slice::slice_subrange(s, j + 2, c - 1);
                let code = parse_code(body_slice);
                let ghost cv = code@;
                match parse_doc_nodes(s, c) {
                    Err(e2) => Err(e2),
                    Ok((nodes, p2)) => {
                        let mut out: Vec<DocNode> = Vec::new();
                        if j > i {
                            let t_slice = vstd::slice::slice_subrange(s, i, j);
                            out.push(DocNode::Text(vstd::slice::slice_to_vec(t_slice)));
                        }
                        out.push(DocNode::CodeOutput(code));
                        let mut nodes2 = nodes;
                        let ghost nv = view_doc_nodes(nodes2@);
                        out.append(&mut nodes2);
                        proof {
                            assert(view_doc_nodes(out@) =~= txt + seq![
                                SpecDocNode::CodeOutput(cv),
                            ] + nv);
                        }
                        Ok((out, p2))
                    },
                }
            },
        }
    }
}

/// Parse a whole input into its setup items and document nodes. An `Err`
/// carries the byte position of the first structural mismatch.
pub fn parse_file(s: &[u8]) -> (r: Result<ParsedFile, usize>)
    ensures
        (match r {
            Ok(f) => spec_parse_file(s@) == Ok::<(Seq<SpecSetupItem>, Seq<SpecDocNode>), int>(
                (view_setup_items(f.setup@), view_doc_nodes(f.document@)),
            ),
            Err(q) => spec_parse_file(s@) == Err::<(Seq<SpecSetupItem>, Seq<SpecDocNode>), int>(
                q as int,
            ),
        }),
{
    let bw: [u8; 5] = [98, 101, 103, 105, 110];
    let sn: [u8; 5] = [115, 101, 116, 117, 112];
    let dn: [u8; 8] = [100, 111, 99, 117, 109, 101, 110, 116];
    proof {
        assert(bw@ =~= kw_begin());
        assert(sn@ =~= kw_setup());
        assert(dn@ =~= kw_document());
    }
    match parse_named_marker(s, 0, bw.as_slice(), sn.as_slice()) {
        Err(q) => Err(q),
        Ok(p1) => {
            proof {
                assert(pos_after(0, p1 as int) == p1 as int);
            }
            match parse_setup_items(s, p1) {
                Err(q) => Err(q),
                Ok((items, p2)) => {
                    proof {
                        assert(pos_after(0, p2 as int) == p2 as int);
                    }
                    match parse_named_marker(s, p2, bw.as_slice(), dn.as_slice()) {
                        Err(q) => Err(q),
                        Ok(p3) => {
                            proof {
                                assert(pos_after(0, p3 as int) == p3 as int);
                            }
                            match parse_doc_nodes(s, p3) {
                                Err(q) => Err(q),
                                Ok((nodes, p4)) => {
                                    proof {
                                        assert(pos_after(0, p4 as int) == p4 as int);
                                    }
                                    let k2 = skip_ws(s, p4);
                                    if k2 < s.len() {
                                        Err(k2)
                                    } else {
                                        Ok(ParsedFile { setup: items, document: nodes })
                                    }
                                },
                            }
                        },
                    }
                },
            }
        },
    }
}

} // verus!

//! The hand-rolled lexer for the markup language: it turns raw input bytes
//! into a flat token stream. Block markers (`begin(setup)` / `end(setup)`)
//! are folded into single tokens; unknown block names produce no token; a
//! `documentclass(...)` keyword yields a token carrying the extracted
//! quoted class name.

use vstd::prelude::*;

use crate::grammar::{find_byte, find_byte_exec, lemma_find_byte};
use crate::kw::{is_begin, is_documentclass, is_end, is_matrix, is_setup, is_sum};
use crate::kw::{kw_begin, kw_documentclass, kw_end, kw_matrix, kw_setup, kw_sum};
use crate::parser::{extract_string_content, spec_extract};
use crate::util::{
    alnum_run, byte_is_alnum, byte_is_digit, byte_is_letter, byte_is_numchar, byte_is_skipchar,
    byte_is_ws, is_alnum, is_digit, is_letter, is_ws, lemma_alnum_run, lemma_num_run,
    lemma_skip1_run, lemma_ws_run, num_run, skip1_run, skip_ws, ws_run,
};

verus! {

/// One lexical token of the markup language.
#[derive(Debug, Clone, PartialEq)]
pub enum Token {
    BeginSetup,
    EndSetup,
    DocumentClass(Vec<u8>),
    Matrix,
    Sum,
    Number(Vec<u8>),
    Identifier(Vec<u8>),
    ParenthesisOpen,
    ParenthesisClose,
    EndOfFile,
}

/// The mathematical value of a token: the same shape over byte sequences.
pub enum SpecToken {
    BeginSetup,
    EndSetup,
    DocumentClass(Seq<u8>),
    Matrix,
    Sum,
    Number(Seq<u8>),
    Identifier(Seq<u8>),
    ParenthesisOpen,
    ParenthesisClose,
    EndOfFile,
}

impl View for Token {
    type V = SpecToken;

    open spec fn view(&self) -> SpecToken {
        match self {
            Token::BeginSetup => SpecToken::BeginSetup,
            Token::EndSetup => SpecToken::EndSetup,
            Token::DocumentClass(v) => SpecToken::DocumentClass(v@),
            Token::Matrix => SpecToken::Matrix,
            Token::Sum => SpecToken::Sum,
            Token::Number(v) => SpecToken::Number(v@),
            Token::Identifier(v) => SpecToken::Identifier(v@),
            Token::ParenthesisOpen => SpecToken::ParenthesisOpen,
            Token::ParenthesisClose => SpecToken::ParenthesisClose,
            Token::EndOfFile => SpecToken::EndOfFile,
        }
    }
}

pub open spec fn view_tokens(ts: Seq<Token>) -> Seq<SpecToken> {
    ts.map_values(|t: Token| t@)
}

proof fn lemma_view_tokens_push(ts: Seq<Token>, t: Token)
    ensures
        view_tokens(ts.push(t)) == view_tokens(ts).push(t@),
{
    assert(view_tokens(ts.push(t)) =~= view_tokens(ts).push(t@));
}

/// A block name: skip whitespace and stray parentheses, then collect
/// non-whitespace bytes up to (and consuming) the closing parenthesis.
pub open spec fn block_collect(s: Seq<u8>, i: int) -> (Seq<u8>, int)
    decreases s.len() - i when 0 <= i <= s.len()
{
    if i >= s.len() {
        (Seq::<u8>::empty(), i)
    } else if s[i] == 41 {
        (Seq::<u8>::empty(), i + 1)
    } else if is_ws(s[i]) {
        block_collect(s, i + 1)
    } else {
        let r = block_collect(s, i + 1);
        (seq![s[i]] + r.0, r.1)
    }
}

pub proof fn lemma_block_collect(s: Seq<u8>, i: int)
    requires
        0 <= i <= s.len(),
    ensures
        i <= block_collect(s, i).1 <= s.len(),
    decreases s.len() - i,
{
    if i >= s.len() {
    } else if s[i] == 41 {
    } else {
        lemma_block_collect(s, i + 1);
    }
}

/// A block name read from `i` (just past the opening parenthesis), and the
/// position after its closing parenthesis.
pub open spec fn spec_block_name(s: Seq<u8>, i: int) -> (Seq<u8>, int) {
    block_collect(s, i + skip1_run(s, i))
}

fn block_collect_exec(s: &[u8], i: usize) -> (r: (Vec<u8>, usize))
    requires
        i <= s@.len(),
    ensures
        r.0@ == block_collect(s@, i as int).0,
        r.1 == block_collect(s@, i as int).1,
        i <= r.1 <= s@.len(),
    decreases s@.len() - i,
{
    proof {
        lemma_block_collect(s@, i as int);
    }
    if i >= s.len() {
        (Vec::new(), i)
    } else {
        let b = s[i];
        if b == 41 {
            (Vec::new(), i + 1)
        } else if byte_is_ws(b) {
            block_collect_exec(s, i + 1)
        } else {
            let (mut rest, j) = block_collect_exec(s, i + 1);
            let mut v: Vec<u8> = Vec::new();
            v.push(b);
            v.append(&mut rest);
            proof {
                assert(v@ =~= seq![s@[i as int]] + block_collect(s@, i + 1).0);
            }
            (v, j)
        }
    }
}

/// Read a block name starting at `i` (just past the opening parenthesis).
pub fn get_block_name(s: &[u8], i: usize) -> (r: (Vec<u8>, usize))
    requires
        i <= s@.len(),
    ensures
        r.0@ == spec_block_name(s@, i as int).0,
        r.1 == spec_block_name(s@, i as int).1,
        i <= r.1 <= s@.len(),
{
    let mut j: usize = i;
    proof {
        lemma_skip1_run(s@, i as int);
    }
    while j < s.len() && byte_is_skipchar(s[j])
        invariant
            i <= j <= s@.len(),
            skip1_run(s@, i as int) == (j - i) + skip1_run(s@, j as int),
        decreases s@.len() - j,
    {
        proof {
            assert(skip1_run(s@, j as int) == 1 + skip1_run(s@, j + 1));
        }
        j = j + 1;
    }
    proof {
        assert(skip1_run(s@, j as int) == 0);
        assert(j == i + skip1_run(s@, i as int));
    }
    block_collect_exec(s, j)
}

/// Read the maximal numeric run (digits and dots) starting at `i`.
pub fn get_numeric(s: &[u8], i: usize) -> (r: (Vec<u8>, usize))
    requires
        i <= s@.len(),
    ensures
        r.1 == i + num_run(s@, i as int),
        i <= r.1 <= s@.len(),
        r.0@ == s@.subrange(i as int, r.1 as int),
{
    proof {
        lemma_num_run(s@, i as int);
    }
    let mut j: usize = i;
    let mut v: Vec<u8> = Vec::new();
    while j < s.len() && byte_is_numchar(s[j])
        invariant
            i <= j <= s@.len(),
            num_run(s@, i as int) == (j - i) + num_run(s@, j as int),
            v@ == s@.subrange(i as int, j as int),
        decreases s@.len() - j,
    {
        proof {
            assert(num_run(s@, j as int) == 1 + num_run(s@, j + 1));
            assert(s@.subrange(i as int, j + 1 as int) == s@.subrange(i as int, j as int).push(
                s@[j as int],
            ));
        }
        v.push(s[j]);
        j = j + 1;
    }
    proof {
        assert(num_run(s@, j as int) == 0);
    }
    (v, j)
}

/// Read the maximal alphanumeric run starting at `i`.
pub fn get_alphanumeric(s: &[u8], i: usize) -> (r: (Vec<u8>, usize))
    requires
        i <= s@.len(),
    ensures
        r.1 == i + alnum_run(s@, i as int),
        i <= r.1 <= s@.len(),
        r.0@ == s@.subrange(i as int, r.1 as int),
{
    proof {
        lemma_alnum_run(s@, i as int);
    }
    let mut j: usize = i;
    let mut v: Vec<u8> = Vec::new();
    while j < s.len() && byte_is_alnum(s[j])
        invariant
            i <= j <= s@.len(),
            alnum_run(s@, i as int) == (j - i) + alnum_run(s@, j as int),
            v@ == s@.subrange(i as int, j as int),
        decreases s@.len() - j,
    {
        proof {
            assert(alnum_run(s@, j as int) == 1 + alnum_run(s@, j + 1));
            assert(s@.subrange(i as int, j + 1 as int) == s@.subrange(i as int, j as int).push(
                s@[j as int],
            ));
        }
        v.push(s[j]);
        j = j + 1;
    }
    proof {
        assert(alnum_run(s@, j as int) == 0);
    }
    (v, j)
}

/// The token stream that the input denotes from position `i` on.
pub open spec fn spec_tokenise(s: Seq<u8>, i: int) -> Seq<SpecToken>
    decreases s.len() - i when 0 <= i <= s.len()
{
    if i >= s.len() {
        seq![SpecToken::EndOfFile]
    } else {
        let b = s[i];
        if is_ws(b) {
            spec_tokenise(s, i + 1)
        } else if b == 40 {
            seq![SpecToken::ParenthesisOpen] + spec_tokenise(s, i + 1)
        } else if b == 41 {
            seq![SpecToken::ParenthesisClose] + spec_tokenise(s, i + 1)
        } else if is_digit(b) {
            proof {
                lemma_num_run(s, i);
            }
            let j = i + num_run(s, i);
            seq![SpecToken::Number(s.subrange(i, j))] + spec_tokenise(s, j)
        } else if is_letter(b) {
            proof {
                lemma_alnum_run(s, i);
            }
            let j = i + alnum_run(s, i);
            let w = s.subrange(i, j);
            if w == kw_begin() || w == kw_end() {
                proof {
                    lemma_ws_run(s, j);
                }
                let k = j + ws_run(s, j);
                if k < s.len() && s[k] == 40 {
                    proof {
                        lemma_skip1_run(s, k + 1);
                        lemma_block_collect(s, k + 1 + skip1_run(s, k + 1));
                    }
                    let bn = spec_block_name(s, k + 1);
                    if bn.0 == kw_setup() {
                        if w == kw_begin() {
                            seq![SpecToken::BeginSetup] + spec_tokenise(s, bn.1)
                        } else {
                            seq![SpecToken::EndSetup] + spec_tokenise(s, bn.1)
                        }
                    } else {
                        spec_tokenise(s, bn.1)
                    }
                } else {
                    seq![SpecToken::Identifier(w)] + spec_tokenise(s, k)
                }
            } else if w == kw_documentclass() {
                proof {
                    lemma_ws_run(s, j);
                }
                let k = j + ws_run(s, j);
                if k < s.len() && s[k] == 40 {
                    let c = find_byte(s, k, 41);
                    let item = if c < 0 {
                        s.subrange(k, s.len() as int)
                    } else {
                        s.subrange(k, c)
                    };
                    let clazz = match spec_extract(item) {
                        Some(v) => v,
                        None => Seq::<u8>::empty(),
                    };
                    seq![SpecToken::DocumentClass(clazz)] + spec_tokenise(s, k)
                } else {
                    seq![SpecToken::Identifier(w)] + spec_tokenise(s, k)
                }
            } else if w == kw_matrix() {
                seq![SpecToken::Matrix] + spec_tokenise(s, j)
            } else if w == kw_sum() {
                seq![SpecToken::Sum] + spec_tokenise(s, j)
            } else {
                seq![SpecToken::Identifier(w)] + spec_tokenise(s, j)
            }
        } else {
            spec_tokenise(s, i + 1)
        }
    }
}

/// Turn the raw input into its token stream.
pub fn tokenise(s: &[u8]) -> (r: Vec<Token>)
    ensures
        view_tokens(r@) == spec_tokenise(s@, 0),
{
    let mut tokens: Vec<Token> = Vec::new();
    let mut i: usize = 0;
    while i < s.len()
        invariant
            0 <= i <= s@.len(),
            view_tokens(tokens@) + spec_tokenise(s@, i as int) == spec_tokenise(s@, 0),
        decreases s@.len() - i,
    {
        let ghost t0 = tokens@;
        let ghost i0 = i as int;
        let b = s[i];
        if byte_is_ws(b) {
            i = i + 1;
            proof {
                assert(spec_tokenise(s@, i0) == spec_tokenise(s@, i as int));
            }
        } else if b == 40 {
            tokens.push(Token::ParenthesisOpen);
            i = i + 1;
            proof {
                assert(spec_tokenise(s@, i0) == seq![SpecToken::ParenthesisOpen] + spec_tokenise(
                    s@,
                    i as int,
                ));
                lemma_view_tokens_push(t0, Token::ParenthesisOpen);
                assert(view_tokens(tokens@) + spec_tokenise(s@, i as int) =~= view_tokens(t0)
                    + spec_tokenise(s@, i0));
            }
        } else if b == 41 {
            tokens.push(Token::ParenthesisClose);
            i = i + 1;
            proof {
                assert(spec_tokenise(s@, i0) == seq![SpecToken::ParenthesisClose] + spec_tokenise(
                    s@,
                    i as int,
                ));
                lemma_view_tokens_push(t0, Token::ParenthesisClose);
                assert(view_tokens(tokens@) + spec_tokenise(s@, i as int) =~= view_tokens(t0)
                    + spec_tokenise(s@, i0));
            }
        } else if byte_is_digit(b) {
            let (num, j) = get_numeric(s, i);
            let ghost nv = num@;
            tokens.push(Token::Number(num));
            proof {
                assert(spec_tokenise(s@, i0) == seq![SpecToken::Number(nv)] + spec_tokenise(
                    s@,
                    j as int,
                ));
            }
            i = j;
            proof {
                assert(view_tokens(tokens@) =~= view_tokens(t0).push(SpecToken::Number(nv)));
                assert(view_tokens(tokens@) + spec_tokenise(s@, i as int) =~= view_tokens(t0)
                    + spec_tokenise(s@, i0));
            }
        } else if byte_is_letter(b) {
            let (w, j) = get_alphanumeric(s, i);
            let ghost wv = w@;
            if is_begin(w.as_slice()) || is_end(w.as_slice()) {
                let was_begin = is_begin(w.as_slice());
                let k = skip_ws(s, j);
                if k < s.len() && s[k] == 40 {
                    let (name, m) = get_block_name(s, k + 1);
                    if is_setup(name.as_slice()) {
                        let t = if was_begin {
                            Token::BeginSetup
                        } else {
                            Token::EndSetup
                        };
                        tokens.push(t);
                        i = m;
                        proof {
                            if was_begin {
                                assert(spec_tokenise(s@, i0) == seq![SpecToken::BeginSetup]
                                    + spec_tokenise(s@, i as int));
                            } else {
                                assert(spec_tokenise(s@, i0) == seq![SpecToken::EndSetup]
                                    + spec_tokenise(s@, i as int));
                            }
                            lemma_view_tokens_push(t0, t);
                            assert(view_tokens(tokens@) + spec_tokenise(s@, i as int)
                                =~= view_tokens(t0) + spec_tokenise(s@, i0));
                        }
                    } else {
                        i = m;
                        proof {
                            assert(spec_tokenise(s@, i0) == spec_tokenise(s@, i as int));
                        }
                    }
                } else {
                    tokens.push(Token::Identifier(w));
                    i = k;
                    proof {
                        assert(spec_tokenise(s@, i0) == seq![SpecToken::Identifier(wv)]
                            + spec_tokenise(s@, i as int));
                        assert(view_tokens(tokens@) =~= view_tokens(t0).push(
                            SpecToken::Identifier(wv),
                        ));
                        assert(view_tokens(tokens@) + spec_tokenise(s@, i as int) =~= view_tokens(
                            t0,
                        ) + spec_tokenise(s@, i0));
                    }
                }
            } else if is_documentclass(w.as_slice()) {
                let k = skip_ws(s, j);
                if k < s.len() && s[k] == 40 {
                    let item_end = match find_byte_exec(s, k, 41) {
                        None => s.len(),
                        Some(c) => c,
                    };
                    let item = vstd::slice::slice_subrange(s, k, item_end);
                    let clazz = match extract_string_content(item) {
                        Some(v) => v,
                        None => Vec::new(),
                    };
                    let ghost cv = clazz@;
                    tokens.push(Token::DocumentClass(clazz));
                    i = k;
                    proof {
                        assert(spec_tokenise(s@, i0) == seq![SpecToken::DocumentClass(cv)]
                            + spec_tokenise(s@, i as int));
                        assert(view_tokens(tokens@) =~= view_tokens(t0).push(
                            SpecToken::DocumentClass(cv),
                        ));
                        assert(view_tokens(tokens@) + spec_tokenise(s@, i as int) =~= view_tokens(
                            t0,
                        ) + spec_tokenise(s@, i0));
                    }
                } else {
                    tokens.push(Token::Identifier(w));
                    i = k;
                    proof {
                        assert(spec_tokenise(s@, i0) == seq![SpecToken::Identifier(wv)]
                            + spec_tokenise(s@, i as int));
                        assert(view_tokens(tokens@) =~= view_tokens(t0).push(
                            SpecToken::Identifier(wv),
                        ));
                        assert(view_tokens(tokens@) + spec_tokenise(s@, i as int) =~= view_tokens(
                            t0,
                        ) + spec_tokenise(s@, i0));
                    }
                }
            } else if is_matrix(w.as_slice()) {
                tokens.push(Token::Matrix);
                i = j;
                proof {
                    assert(spec_tokenise(s@, i0) == seq![SpecToken::Matrix] + spec_tokenise(
                        s@,
                        i as int,
                    ));
                    lemma_view_tokens_push(t0, Token::Matrix);
                    assert(view_tokens(tokens@) + spec_tokenise(s@, i as int) =~= view_tokens(t0)
                        + spec_tokenise(s@, i0));
                }
            } else if is_sum(w.as_slice()) {
                tokens.push(Token::Sum);
                i = j;
                proof {
                    assert(spec_tokenise(s@, i0) == seq![SpecToken::Sum] + spec_tokenise(
                        s@,
                        i as int,
                    ));
                    lemma_view_tokens_push(t0, Token::Sum);
                    assert(view_tokens(tokens@) + spec_tokenise(s@, i as int) =~= view_tokens(t0)
                        + spec_tokenise(s@, i0));
                }
            } else {
                tokens.push(Token::Identifier(w));
                i = j;
                proof {
                    assert(spec_tokenise(s@, i0) == seq![SpecToken::Identifier(wv)]
                        + spec_tokenise(s@, i as int));
                    assert(view_tokens(tokens@) =~= view_tokens(t0).push(SpecToken::Identifier(
                        wv,
                    )));
                    assert(view_tokens(tokens@) + spec_tokenise(s@, i as int) =~= view_tokens(t0)
                        + spec_tokenise(s@, i0));
                }
            }
        } else {
            i = i + 1;
            proof {
                assert(spec_tokenise(s@, i0) == spec_tokenise(s@, i as int));
            }
        }
    }
    let ghost tfin = tokens@;
    tokens.push(Token::EndOfFile);
    proof {
        assert(spec_tokenise(s@, i as int) == seq![SpecToken::EndOfFile]);
        lemma_view_tokens_push(tfin, Token::EndOfFile);
        assert(view_tokens(tokens@) =~= view_tokens(tfin) + seq![SpecToken::EndOfFile]);
        assert(view_tokens(tokens@) =~= spec_tokenise(s@, 0));
    }
    tokens
}

} // verus!

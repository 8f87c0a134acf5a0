//! The compilation pipeline: interpret the setup items into the state,
//! prepend the preamble, render the document nodes, and close the document.
//! Rendering is specified exactly against mathematical functions; where the
//! scripting engine answers a lookup, the contracts state what holds of
//! every possible answer.

use vstd::prelude::*;

use crate::ast::{CodeExpr, DocNode, MathExpr, SetupItem, SpecCodeExpr, SpecDocNode, SpecMathExpr, SpecSetupItem};
use crate::engine::{py_elem2, py_eval, py_list_item_is_list, py_list_item_str, py_list_len, py_probe_kind, py_run, py_shape_dims, py_sublist_item_str, py_sublist_len, Engine, PyKind};
use crate::grammar::{find_byte, lemma_find_byte, parse_file, spec_parse_file, view_doc_nodes, view_setup_items};
use crate::lit::{lit_amp_sep, lit_author_open, lit_begin_document_line, lit_begin_equation_line, lit_begin_pmatrix_line, lit_close_brace_nl, lit_comma_space, lit_documentclass_open, lit_dollar, lit_dollar2_nl, lit_end_document_line, lit_end_equation_line, lit_end_pmatrix_line, lit_error_prefix, lit_frac_mid, lit_frac_open, lit_is_not_a_matrix, lit_is_not_defined, lit_matrix_word, lit_variable_word, lit_nl_dollar2, lit_row_end, lit_slash, lit_space_dollar, lit_title_open, lit_usepackage_amsmath};
use crate::lit::{amp_sep_bytes, begin_equation_line_bytes, begin_pmatrix_line_bytes, comma_space_bytes, dollar_bytes, dollar2_nl_bytes, end_document_line_bytes, end_equation_line_bytes, end_pmatrix_line_bytes, error_prefix_bytes, frac_mid_bytes, frac_open_bytes, is_not_a_matrix_bytes, is_not_defined_bytes, matrix_word_bytes, nl_dollar2_bytes, row_end_bytes, slash_bytes, space_dollar_bytes, variable_word_bytes};
use crate::state::{assoc_lookup, lookup_matrix, lookup_variable, LatexState, SpecState};
use crate::util::{byte_is_numchar, is_lower, is_numchar, is_upper, is_ws, push_all, spec_trim, trim_bytes};
use crate::ast::view_math;

verus! {

/// Why a compile failed.
#[derive(Debug)]
pub enum LatexError {
    /// The grammar did not recognize the input; the position of the first
    /// structural mismatch.
    Syntax(usize),
    /// The scripting engine failed while defining a setup code region; its
    /// message. Later code may depend on the failed definitions, so this
    /// aborts the compile.
    Engine(Vec<u8>),
}

/// The mathematical view of a `LatexError`.
pub enum SpecLatexError {
    Syntax(int),
    Engine(Seq<u8>),
}

impl View for LatexError {
    type V = SpecLatexError;

    open spec fn view(&self) -> SpecLatexError {
        match self {
            LatexError::Syntax(p) => SpecLatexError::Syntax(*p as int),
            LatexError::Engine(m) => SpecLatexError::Engine(m@),
        }
    }
}

/// The first quote byte (single or double) at or after `i`, or -1.
pub open spec fn find_quote(s: Seq<u8>, i: int) -> int
    decreases s.len() - i when 0 <= i <= s.len()
{
    if i >= s.len() {
        -1
    } else if s[i] == 34 || s[i] == 39 {
        i
    } else {
        find_quote(s, i + 1)
    }
}

/// The quoted string inside an item's text: the content between the first
/// quote byte and the next occurrence of that same byte. The closing quote
/// need not open the string; a `"` may be closed by the first `"` even if a
/// `'` sits between them.
pub open spec fn spec_extract(input: Seq<u8>) -> Option<Seq<u8>> {
    let q = find_quote(input, 0);
    if q < 0 {
        None
    } else {
        let e = find_byte(input, q + 1, input[q]);
        if e < 0 {
            None
        } else {
            Some(input.subrange(q + 1, e))
        }
    }
}

/// Extract the first quoted string of `input`: the content between the
/// first quote byte (either kind) and the next occurrence of that byte.
pub fn extract_string_content(input: &[u8]) -> (r: Option<Vec<u8>>)
    ensures
        (match r {
            Some(v) => spec_extract(input@) == Some(v@),
            None => spec_extract(input@) is None,
        }),
{
    match find_quote_exec(input) {
        None => None,
        Some(q) => {
            let qc = input[q];
            match crate::grammar::find_byte_exec(input, q + 1, qc) {
                None => None,
                Some(e) => {
                    let part = vstd::slice::slice_subrange(input, q + 1, e);
                    Some(vstd::slice::slice_to_vec(part))
                },
            }
        },
    }
}

fn find_quote_exec(s: &[u8]) -> (r: Option<usize>)
    ensures
        (match r {
            Some(q) => find_quote(s@, 0) == q as int && q < s@.len() && (s@[q as int] == 34
                || s@[q as int] == 39),
            None => find_quote(s@, 0) == -1,
        }),
{
    let mut q: usize = 0;
    while q < s.len()
        invariant
            0 <= q <= s@.len(),
            find_quote(s@, 0) == find_quote(s@, q as int),
        decreases s@.len() - q,
    {
        if s[q] == 34 || s[q] == 39 {
            proof {
                assert(find_quote(s@, q as int) == q as int);
            }
            return Some(q);
        }
        proof {
            assert(find_quote(s@, q as int) == find_quote(s@, q + 1));
        }
        q = q + 1;
    }
    proof {
        assert(find_quote(s@, q as int) == -1);
    }
    None
}

/// `parts` joined with `sep` between consecutive parts.
pub open spec fn spec_join(parts: Seq<Seq<u8>>, sep: Seq<u8>) -> Seq<u8>
    decreases parts.len(),
{
    if parts.len() == 0 {
        Seq::<u8>::empty()
    } else if parts.len() == 1 {
        parts[0]
    } else {
        parts[0] + sep + spec_join(parts.drop_first(), sep)
    }
}

/// Join the parts from index `start` on with `sep`.
pub fn join_from(parts: &Vec<Vec<u8>>, start: usize, sep: &[u8]) -> (r: Vec<u8>)
    requires
        start <= parts@.len(),
    ensures
        r@ == spec_join(parts.deep_view().skip(start as int), sep@),
    decreases parts@.len() - start,
{
    let ghost tail = parts.deep_view().skip(start as int);
    if start >= parts.len() {
        proof {
            assert(tail.len() == 0);
        }
        Vec::new()
    } else if start + 1 == parts.len() {
        proof {
            assert(tail.len() == 1);
            assert(tail[0] == parts.deep_view()[start as int]);
        }
        vstd::slice::slice_to_vec(parts[start].as_slice())
    } else {
        let mut out = vstd::slice::slice_to_vec(parts[start].as_slice());
        push_all(&mut out, sep);
        let rest = join_from(parts, start + 1, sep);
        push_all(&mut out, rest.as_slice());
        proof {
            assert(parts.deep_view().skip(start + 1) =~= tail.drop_first());
            assert(tail[0] == parts.deep_view()[start as int]);
            assert(out@ =~= tail[0] + sep@ + spec_join(tail.drop_first(), sep@));
        }
        out
    }
}

/// `Error: ` followed by a message.
pub open spec fn err_text(m: Seq<u8>) -> Seq<u8> {
    lit_error_prefix() + m
}

/// The message for a matrix name that no scope defines.
pub open spec fn msg_matrix_missing(name: Seq<u8>) -> Seq<u8> {
    lit_matrix_word() + name + lit_is_not_defined()
}

/// The message for a name that is defined but not matrix-shaped.
pub open spec fn msg_not_a_matrix(name: Seq<u8>) -> Seq<u8> {
    lit_variable_word() + name + lit_is_not_a_matrix()
}

/// One row of a rendered matrix: elements joined with ` & `, closed by the
/// row terminator.
pub open spec fn spec_fmt_rows(rows: Seq<Seq<Seq<u8>>>) -> Seq<u8>
    decreases rows.len(),
{
    if rows.len() == 0 {
        Seq::<u8>::empty()
    } else {
        spec_join(rows[0], lit_amp_sep()) + lit_row_end() + spec_fmt_rows(rows.drop_first())
    }
}

/// A rendered matrix: the equation and pmatrix environments around the rows.
pub open spec fn matrix_env(rows: Seq<Seq<Seq<u8>>>) -> Seq<u8> {
    lit_begin_equation_line() + lit_begin_pmatrix_line() + spec_fmt_rows(rows)
        + lit_end_pmatrix_line() + lit_end_equation_line()
}

/// A rendered fraction: one token passes through bare; two or more fill the
/// two-slot template, the denominator slot joining the later tokens with `/`.
pub open spec fn spec_render_fraction(toks: Seq<Seq<u8>>) -> Seq<u8> {
    if toks.len() == 0 {
        Seq::<u8>::empty()
    } else if toks.len() == 1 {
        toks[0]
    } else {
        lit_frac_open() + toks[0] + lit_frac_mid() + spec_join(toks.drop_first(), lit_slash())
            + seq![125u8]
    }
}

/// The rendering of a math expression against the named variables and
/// matrices. Precedence nodes render as the concatenation of their children;
/// numbers render verbatim; an identifier renders as its defined value, or
/// verbatim when undefined; a matrix usage renders as a matrix environment,
/// or as an error marker when the name is not a defined matrix.
pub open spec fn spec_render_math(
    e: SpecMathExpr,
    vars: Seq<(Seq<u8>, Seq<u8>)>,
    mats: Seq<(Seq<u8>, Seq<Seq<Seq<u8>>>)>,
) -> Seq<u8>
    decreases e,
{
    match e {
        SpecMathExpr::Sum(ch) => spec_render_math_list(ch, vars, mats),
        SpecMathExpr::Product(ch) => spec_render_math_list(ch, vars, mats),
        SpecMathExpr::Power(ch) => spec_render_math_list(ch, vars, mats),
        SpecMathExpr::Number(t) => t,
        SpecMathExpr::Ident(t) => match assoc_lookup(vars, t) {
            Some(v) => v,
            None => t,
        },
        SpecMathExpr::MatrixUse(n) => match assoc_lookup(mats, n) {
            Some(rows) => matrix_env(rows),
            None => err_text(msg_matrix_missing(n)),
        },
        SpecMathExpr::Fraction(toks) => spec_render_fraction(toks),
    }
}

pub open spec fn spec_render_math_list(
    ch: Seq<SpecMathExpr>,
    vars: Seq<(Seq<u8>, Seq<u8>)>,
    mats: Seq<(Seq<u8>, Seq<Seq<Seq<u8>>>)>,
) -> Seq<u8>
    decreases ch,
{
    if ch.len() == 0 {
        Seq::<u8>::empty()
    } else {
        spec_render_math(ch[0], vars, mats) + spec_render_math_list(ch.drop_first(), vars, mats)
    }
}

/// Does the compiler's own matrix map answer every matrix usage in `e`? When
/// it does, rendering needs no engine and is pinned down exactly.
pub open spec fn math_known(e: SpecMathExpr, mats: Seq<(Seq<u8>, Seq<Seq<Seq<u8>>>)>) -> bool
    decreases e,
{
    match e {
        SpecMathExpr::Sum(ch) => math_list_known(ch, mats),
        SpecMathExpr::Product(ch) => math_list_known(ch, mats),
        SpecMathExpr::Power(ch) => math_list_known(ch, mats),
        SpecMathExpr::Number(t) => true,
        SpecMathExpr::Ident(t) => true,
        SpecMathExpr::MatrixUse(n) => assoc_lookup(mats, n) is Some,
        SpecMathExpr::Fraction(toks) => true,
    }
}

pub open spec fn math_list_known(
    ch: Seq<SpecMathExpr>,
    mats: Seq<(Seq<u8>, Seq<Seq<Seq<u8>>>)>,
) -> bool
    decreases ch,
{
    if ch.len() == 0 {
        true
    } else {
        math_known(ch[0], mats) && math_list_known(ch.drop_first(), mats)
    }
}

proof fn lemma_math_list_snoc(
    ch: Seq<SpecMathExpr>,
    e: SpecMathExpr,
    vars: Seq<(Seq<u8>, Seq<u8>)>,
    mats: Seq<(Seq<u8>, Seq<Seq<Seq<u8>>>)>,
)
    ensures
        spec_render_math_list(ch.push(e), vars, mats) == spec_render_math_list(ch, vars, mats)
            + spec_render_math(e, vars, mats),
        math_list_known(ch.push(e), mats) == (math_list_known(ch, mats) && math_known(e, mats)),
    decreases ch.len(),
{
    if ch.len() == 0 {
        assert(ch.push(e).drop_first() =~= Seq::<SpecMathExpr>::empty());
        assert(ch.push(e)[0] == e);
        assert(spec_render_math_list(ch.push(e).drop_first(), vars, mats) =~= Seq::<u8>::empty());
        assert(math_list_known(ch.push(e).drop_first(), mats));
        assert(spec_render_math_list(ch.push(e), vars, mats) =~= spec_render_math(e, vars, mats));
    } else {
        assert(ch.push(e).drop_first() =~= ch.drop_first().push(e));
        assert(ch.push(e)[0] == ch[0]);
        lemma_math_list_snoc(ch.drop_first(), e, vars, mats);
        assert(spec_render_math_list(ch.push(e), vars, mats) =~= spec_render_math_list(
            ch,
            vars,
            mats,
        ) + spec_render_math(e, vars, mats));
    }
}

/// The prose padding rule. The trimmed span's first byte decides: an
/// uppercase letter, a period or a colon reads as a sentence start and gets
/// a trailing space; a lowercase letter gets a space on both sides; anything
/// else is appended bare. An all-whitespace span renders as nothing.
pub open spec fn spec_pad_text(raw: Seq<u8>) -> Seq<u8> {
    let t = spec_trim(raw);
    if t.len() == 0 {
        Seq::<u8>::empty()
    } else if is_upper(t[0]) || t[0] == 46 || t[0] == 58 {
        t + seq![32u8]
    } else if is_lower(t[0]) {
        seq![32u8] + t + seq![32u8]
    } else {
        t
    }
}

/// A number: one or more numeric bytes and nothing else.
pub open spec fn all_numchars(t: Seq<u8>) -> bool {
    t.len() > 0 && (forall|k: int| 0 <= k < t.len() ==> is_numchar(t[k]))
}

/// The self-contained evaluation of a code interpolation: a number passes
/// through verbatim; a defined variable renders as its value; anything else
/// renders as an error marker.
pub open spec fn spec_eval_raw(t: Seq<u8>, vars: Seq<(Seq<u8>, Seq<u8>)>) -> Seq<u8> {
    let u = spec_trim(t);
    if all_numchars(u) {
        u
    } else {
        match assoc_lookup(vars, u) {
            Some(v) => v,
            None => err_text(u + lit_is_not_defined()),
        }
    }
}

/// The expression text handed to the engine for a code node: an identifier
/// stays bare; a call is rebuilt as `name(arg, arg)`; anything else passes
/// through as written.
pub open spec fn spec_reconstruct(ce: SpecCodeExpr) -> Seq<u8> {
    match ce {
        SpecCodeExpr::IdentRef(n) => n,
        SpecCodeExpr::Call(n, args) => n + seq![40u8] + spec_join(args, lit_comma_space()) + seq![
            41u8,
        ],
        SpecCodeExpr::Raw(t) => t,
    }
}

/// The rendering of one document node against the named variables and
/// matrices, for a compile with no engine attached.
pub open spec fn spec_render_node(
    n: SpecDocNode,
    vars: Seq<(Seq<u8>, Seq<u8>)>,
    mats: Seq<(Seq<u8>, Seq<Seq<Seq<u8>>>)>,
) -> Seq<u8> {
    match n {
        SpecDocNode::Text(raw) => spec_pad_text(raw),
        SpecDocNode::InlineMath(e) => lit_space_dollar() + spec_render_math(e, vars, mats)
            + lit_dollar(),
        SpecDocNode::NewlineMath(e) => lit_nl_dollar2() + spec_render_math(e, vars, mats)
            + lit_dollar2_nl(),
        SpecDocNode::CodeOutput(ce) => spec_eval_raw(spec_reconstruct(ce), vars),
    }
}

/// The rendering of the document nodes in order.
pub open spec fn spec_render_nodes(
    ns: Seq<SpecDocNode>,
    vars: Seq<(Seq<u8>, Seq<u8>)>,
    mats: Seq<(Seq<u8>, Seq<Seq<Seq<u8>>>)>,
) -> Seq<u8>
    decreases ns.len(),
{
    if ns.len() == 0 {
        Seq::<u8>::empty()
    } else {
        spec_render_node(ns[0], vars, mats) + spec_render_nodes(ns.drop_first(), vars, mats)
    }
}

/// Does the compiler's own matrix map answer every matrix usage in the
/// document?
pub open spec fn nodes_known(ns: Seq<SpecDocNode>, mats: Seq<(Seq<u8>, Seq<Seq<Seq<u8>>>)>)
    -> bool
    decreases ns.len(),
{
    if ns.len() == 0 {
        true
    } else {
        (match ns[0] {
            SpecDocNode::InlineMath(e) => math_known(e, mats),
            SpecDocNode::NewlineMath(e) => math_known(e, mats),
            _ => true,
        }) && nodes_known(ns.drop_first(), mats)
    }
}

proof fn lemma_render_nodes_snoc(
    ns: Seq<SpecDocNode>,
    n: SpecDocNode,
    vars: Seq<(Seq<u8>, Seq<u8>)>,
    mats: Seq<(Seq<u8>, Seq<Seq<Seq<u8>>>)>,
)
    ensures
        spec_render_nodes(ns.push(n), vars, mats) == spec_render_nodes(ns, vars, mats)
            + spec_render_node(n, vars, mats),
    decreases ns.len(),
{
    if ns.len() == 0 {
        assert(ns.push(n).drop_first() =~= Seq::<SpecDocNode>::empty());
        assert(ns.push(n)[0] == n);
        assert(spec_render_nodes(ns.push(n).drop_first(), vars, mats) =~= Seq::<u8>::empty());
        assert(spec_render_nodes(ns.push(n), vars, mats) =~= spec_render_node(n, vars, mats));
    } else {
        assert(ns.push(n).drop_first() =~= ns.drop_first().push(n));
        assert(ns.push(n)[0] == ns[0]);
        lemma_render_nodes_snoc(ns.drop_first(), n, vars, mats);
        assert(spec_render_nodes(ns.push(n), vars, mats) =~= spec_render_nodes(ns, vars, mats)
            + spec_render_node(n, vars, mats));
    }
}

/// The engine-independent shape of one rendered node: a text span renders
/// by the padding rule whichever engine is attached; math renders inside
/// its delimiters; a code node's rendering is the engine's to decide.
pub open spec fn node_shape(n: SpecDocNode, out: Seq<u8>) -> bool {
    match n {
        SpecDocNode::Text(raw) => out == spec_pad_text(raw),
        SpecDocNode::InlineMath(e) => exists|mid: Seq<u8>|
            out == lit_space_dollar() + mid + lit_dollar(),
        SpecDocNode::NewlineMath(e) => exists|mid: Seq<u8>|
            out == lit_nl_dollar2() + mid + lit_dollar2_nl(),
        SpecDocNode::CodeOutput(ce) => true,
    }
}

/// The text a document appends splits into consecutive pieces, one per
/// node, each of its node's shape.
pub open spec fn nodes_shape(ns: Seq<SpecDocNode>, out: Seq<u8>) -> bool
    decreases ns.len(),
{
    if ns.len() == 0 {
        out.len() == 0
    } else {
        exists|a: Seq<u8>, b: Seq<u8>|
            out == a + b && node_shape(ns[0], a) && nodes_shape(ns.drop_first(), b)
    }
}

proof fn lemma_nodes_shape_snoc(ns: Seq<SpecDocNode>, n: SpecDocNode, a: Seq<u8>, b: Seq<u8>)
    requires
        nodes_shape(ns, a),
        node_shape(n, b),
    ensures
        nodes_shape(ns.push(n), a + b),
    decreases ns.len(),
{
    if ns.len() == 0 {
        assert(a.len() == 0);
        assert(ns.push(n)[0] == n);
        assert(ns.push(n).drop_first() =~= Seq::<SpecDocNode>::empty());
        assert(nodes_shape(ns.push(n).drop_first(), Seq::<u8>::empty()));
        assert(a + b =~= b + Seq::<u8>::empty());
        assert(nodes_shape(ns.push(n), a + b)) by {
            assert((a + b) == b + Seq::<u8>::empty() && node_shape(ns.push(n)[0], b)
                && nodes_shape(ns.push(n).drop_first(), Seq::<u8>::empty()));
        }
    } else {
        let (x, y) = choose|x: Seq<u8>, y: Seq<u8>|
            a == x + y && node_shape(ns[0], x) && nodes_shape(ns.drop_first(), y);
        lemma_nodes_shape_snoc(ns.drop_first(), n, y, b);
        assert(ns.push(n).drop_first() =~= ns.drop_first().push(n));
        assert(ns.push(n)[0] == ns[0]);
        assert(a + b =~= x + (y + b));
        assert(nodes_shape(ns.push(n), a + b)) by {
            assert((a + b) == x + (y + b) && node_shape(ns.push(n)[0], x) && nodes_shape(
                ns.push(n).drop_first(),
                y + b,
            ));
        }
    }
}

/// Build the matrix-missing message.
fn msg_matrix_missing_bytes(name: &[u8]) -> (r: Vec<u8>)
    ensures
        r@ == msg_matrix_missing(name@),
{
    let mut out = matrix_word_bytes();
    push_all(&mut out, name);
    let tail = is_not_defined_bytes();
    push_all(&mut out, tail.as_slice());
    out
}

/// Build the not-a-matrix message.
fn msg_not_a_matrix_bytes(name: &[u8]) -> (r: Vec<u8>)
    ensures
        r@ == msg_not_a_matrix(name@),
{
    let mut out = variable_word_bytes();
    push_all(&mut out, name);
    let tail = is_not_a_matrix_bytes();
    push_all(&mut out, tail.as_slice());
    out
}

/// Resolve a name to matrix rows. The compiler's own matrices answer first;
/// otherwise the scripting engine is asked, dispatching on the shape its
/// value exposes: array-like (rows by numeric index), list of lists, or
/// list of scalars (a single-column matrix). Anything else is an error,
/// reported per occurrence rather than aborting the compile.
pub fn get_matrix_elements(name: &[u8], state: &LatexState) -> (r: Result<
    Vec<Vec<Vec<u8>>>,
    Vec<u8>,
>)
    ensures
        (assoc_lookup(state@.matrices, name@) matches Some(rows)) ==> (r matches Ok(v)
            && v.deep_view() == assoc_lookup(state@.matrices, name@).unwrap()),
        (assoc_lookup(state@.matrices, name@) is None && !state@.python) ==> (r matches Err(m)
            && m@ == msg_matrix_missing(name@)),
        r matches Err(m) ==> (m@ == msg_matrix_missing(name@) || m@ == msg_not_a_matrix(name@)),
{
    match lookup_matrix(&state.matrices, name) {
        Some(rows) => Ok(rows),
        None => {
            match &state.engine {
                Engine::Internal => Err(msg_matrix_missing_bytes(name)),
                Engine::Python(pe) => {
                    match py_probe_kind(pe, name) {
                        PyKind::Missing => Err(msg_matrix_missing_bytes(name)),
                        PyKind::Other => Err(msg_not_a_matrix_bytes(name)),
                        PyKind::Shaped => {
                            match py_shape_dims(pe, name) {
                                None => Err(msg_not_a_matrix_bytes(name)),
                                Some((nrows, ncols)) => {
                                    let mut rows: Vec<Vec<Vec<u8>>> = Vec::new();
                                    let mut i: usize = 0;
                                    while i < nrows
                                        invariant
                                            assoc_lookup(state@.matrices, name@) is None,
                                            state@.python,
                                        decreases nrows - i,
                                    {
                                        let mut row: Vec<Vec<u8>> = Vec::new();
                                        let mut j: usize = 0;
                                        while j < ncols
                                            invariant
                                                assoc_lookup(state@.matrices, name@) is None,
                                                state@.python,
                                            decreases ncols - j,
                                        {
                                            match py_elem2(pe, name, i, j) {
                                                None => {
                                                    return Err(msg_not_a_matrix_bytes(name));
                                                },
                                                Some(el) => {
                                                    row.push(el);
                                                },
                                            }
                                            j = j + 1;
                                        }
                                        rows.push(row);
                                        i = i + 1;
                                    }
                                    Ok(rows)
                                },
                            }
                        },
                        PyKind::ListLike => {
                            match py_list_len(pe, name) {
                                None => Err(msg_not_a_matrix_bytes(name)),
                                Some(n) => {
                                    let mut rows: Vec<Vec<Vec<u8>>> = Vec::new();
                                    let mut i: usize = 0;
                                    while i < n
                                        invariant
                                            assoc_lookup(state@.matrices, name@) is None,
                                            state@.python,
                                        decreases n - i,
                                    {
                                        match py_list_item_is_list(pe, name, i) {
                                            None => {
                                                return Err(msg_not_a_matrix_bytes(name));
                                            },
                                            Some(true) => {
                                                match py_sublist_len(pe, name, i) {
                                                    None => {
                                                        return Err(msg_not_a_matrix_bytes(
                                                            name,
                                                        ));
                                                    },
                                                    Some(m) => {
                                                        let mut row: Vec<Vec<u8>> = Vec::new();
                                                        let mut j: usize = 0;
                                                        while j < m
                                                            invariant
                                                                assoc_lookup(state@.matrices, name@) is None,
                                                                state@.python,
                                                            decreases m - j,
                                                        {
                                                            match py_sublist_item_str(
                                                                pe,
                                                                name,
                                                                i,
                                                                j,
                                                            ) {
                                                                None => {
                                                                    return Err(
                                                                        msg_matrix_missing_bytes(
                                                                            name,
                                                                        ),
                                                                    );
                                                                },
                                                                Some(el) => {
                                                                    row.push(el);
                                                                },
                                                            }
                                                            j = j + 1;
                                                        }
                                                        rows.push(row);
                                                    },
                                                }
                                            },
                                            Some(false) => {
                                                match py_list_item_str(pe, name, i) {
                                                    None => {
                                                        return Err(msg_not_a_matrix_bytes(
                                                            name,
                                                        ));
                                                    },
                                                    Some(el) => {
                                                        let mut row: Vec<Vec<u8>> = Vec::new();
                                                        row.push(el);
                                                        rows.push(row);
                                                    },
                                                }
                                            },
                                        }
                                        i = i + 1;
                                    }
                                    Ok(rows)
                                },
                            }
                        },
                    }
                },
            }
        },
    }
}

proof fn lemma_fmt_rows_snoc(rows: Seq<Seq<Seq<u8>>>, row: Seq<Seq<u8>>)
    ensures
        spec_fmt_rows(rows.push(row)) == spec_fmt_rows(rows) + spec_join(row, lit_amp_sep())
            + lit_row_end(),
    decreases rows.len(),
{
    if rows.len() == 0 {
        assert(rows.push(row).drop_first() =~= Seq::<Seq<Seq<u8>>>::empty());
        assert(rows.push(row)[0] == row);
        assert(spec_fmt_rows(rows.push(row).drop_first()) =~= Seq::<u8>::empty());
        assert(spec_fmt_rows(rows.push(row)) =~= spec_fmt_rows(rows) + spec_join(
            row,
            lit_amp_sep(),
        ) + lit_row_end());
    } else {
        assert(rows.push(row).drop_first() =~= rows.drop_first().push(row));
        assert(rows.push(row)[0] == rows[0]);
        lemma_fmt_rows_snoc(rows.drop_first(), row);
        assert(spec_fmt_rows(rows.push(row)) =~= spec_fmt_rows(rows) + spec_join(
            row,
            lit_amp_sep(),
        ) + lit_row_end());
    }
}

/// Render matrix rows: elements joined with ` & `, each row closed by the
/// row terminator.
fn fmt_rows_exec(rows: &Vec<Vec<Vec<u8>>>) -> (r: Vec<u8>)
    ensures
        r@ == spec_fmt_rows(rows.deep_view()),
{
    let mut out: Vec<u8> = Vec::new();
    let mut i: usize = 0;
    let sep = amp_sep_bytes();
    let term = row_end_bytes();
    while i < rows.len()
        invariant
            0 <= i <= rows@.len(),
            sep@ == lit_amp_sep(),
            term@ == lit_row_end(),
            out@ == spec_fmt_rows(rows.deep_view().take(i as int)),
        decreases rows@.len() - i,
    {
        let joined = join_from(&rows[i], 0, sep.as_slice());
        push_all(&mut out, joined.as_slice());
        push_all(&mut out, term.as_slice());
        proof {
            assert(rows[i as int].deep_view().skip(0) =~= rows.deep_view()[i as int]);
            assert(rows.deep_view().take(i + 1) =~= rows.deep_view().take(i as int).push(
                rows.deep_view()[i as int],
            ));
            lemma_fmt_rows_snoc(rows.deep_view().take(i as int), rows.deep_view()[i as int]);
        }
        i = i + 1;
    }
    proof {
        assert(rows.deep_view().take(rows@.len() as int) =~= rows.deep_view());
    }
    out
}

/// The structural size of a math expression, for termination of the
/// recursive renderer.
pub open spec fn math_size(e: MathExpr) -> nat
    decreases e,
{
    match e {
        MathExpr::Sum(v) => 1 + math_list_size(v@),
        MathExpr::Product(v) => 1 + math_list_size(v@),
        MathExpr::Power(v) => 1 + math_list_size(v@),
        MathExpr::Number(t) => 1,
        MathExpr::Ident(t) => 1,
        MathExpr::MatrixUse(t) => 1,
        MathExpr::Fraction(ts) => 1,
    }
}

pub open spec fn math_list_size(s: Seq<MathExpr>) -> nat
    decreases s,
{
    if s.len() == 0 {
        0nat
    } else {
        math_size(s[0]) + math_list_size(s.drop_first())
    }
}

proof fn lemma_math_list_size_elem(s: Seq<MathExpr>, i: int)
    requires
        0 <= i < s.len(),
    ensures
        math_size(s[i]) <= math_list_size(s),
    decreases s.len(),
{
    if i == 0 {
    } else {
        lemma_math_list_size_elem(s.drop_first(), i - 1);
        assert(s.drop_first()[i - 1] == s[i]);
    }
}

proof fn lemma_math_list_known_elem(
    s: Seq<SpecMathExpr>,
    i: int,
    mats: Seq<(Seq<u8>, Seq<Seq<Seq<u8>>>)>,
)
    requires
        0 <= i < s.len(),
        math_list_known(s, mats),
    ensures
        math_known(s[i], mats),
    decreases s.len(),
{
    if i == 0 {
    } else {
        lemma_math_list_known_elem(s.drop_first(), i - 1, mats);
        assert(s.drop_first()[i - 1] == s[i]);
    }
}

/// Render one math expression into the output buffer. Only the buffer
/// changes; lookups never mutate the named entities. When every matrix
/// usage is answered by the compiler's own matrices — always the case with
/// no engine attached — the appended text is pinned down exactly.
pub fn process_maths(expr: &MathExpr, state: &mut LatexState)
    ensures
        final(state)@ == (SpecState { body: final(state)@.body, ..old(state)@ }),
        old(state)@.body.is_prefix_of(final(state)@.body),
        (!old(state)@.python || math_known(view_math(*expr), old(state)@.matrices))
            ==> final(state)@.body == old(state)@.body + spec_render_math(
            view_math(*expr),
            old(state)@.variables,
            old(state)@.matrices,
        ),
        (view_math(*expr) matches SpecMathExpr::MatrixUse(n)) ==> ((exists|rows: Seq<
            Seq<Seq<u8>>,
        >| final(state)@.body == old(state)@.body + matrix_env(rows)) || (exists|m: Seq<u8>|
            final(state)@.body == old(state)@.body + err_text(m))),
    decreases math_size(*expr), 0int,
{
    match expr {
        MathExpr::Sum(v) => {
            process_math_list(v, state);
        },
        MathExpr::Product(v) => {
            process_math_list(v, state);
        },
        MathExpr::Power(v) => {
            process_math_list(v, state);
        },
        MathExpr::Number(t) => {
            state.append_to_body(vstd::slice::slice_to_vec(t.as_slice()));
        },
        MathExpr::Ident(t) => {
            match lookup_variable(&state.variables, t.as_slice()) {
                Some(v) => state.append_to_body(v),
                None => state.append_to_body(vstd::slice::slice_to_vec(t.as_slice())),
            }
        },
        MathExpr::MatrixUse(n) => {
            match get_matrix_elements(n.as_slice(), &*state) {
                Ok(rows) => {
                    let ghost rv = rows.deep_view();
                    state.append_to_body(begin_equation_line_bytes());
                    state.append_to_body(begin_pmatrix_line_bytes());
                    state.append_to_body(fmt_rows_exec(&rows));
                    state.append_to_body(end_pmatrix_line_bytes());
                    state.append_to_body(end_equation_line_bytes());
                    proof {
                        assert(state@.body =~= old(state)@.body + matrix_env(rv));
                        assert(exists|rws: Seq<Seq<Seq<u8>>>| state@.body == old(state)@.body
                            + matrix_env(rws));
                        if !old(state)@.python || math_known(
                            view_math(*expr),
                            old(state)@.matrices,
                        ) {
                            assert(state@.body =~= old(state)@.body + spec_render_math(
                                view_math(*expr),
                                old(state)@.variables,
                                old(state)@.matrices,
                            ));
                        }
                        assert(old(state)@.body.is_prefix_of(state@.body));
                    }
                },
                Err(m) => {
                    let ghost mv = m@;
                    state.append_to_body(error_prefix_bytes());
                    state.append_to_body(m);
                    proof {
                        assert(state@.body =~= old(state)@.body + err_text(mv));
                        assert(exists|msg: Seq<u8>| state@.body == old(state)@.body + err_text(
                            msg,
                        ));
                        if !old(state)@.python || math_known(
                            view_math(*expr),
                            old(state)@.matrices,
                        ) {
                            assert(state@.body =~= old(state)@.body + spec_render_math(
                                view_math(*expr),
                                old(state)@.variables,
                                old(state)@.matrices,
                            ));
                        }
                        assert(old(state)@.body.is_prefix_of(state@.body));
                    }
                },
            }
        },
        MathExpr::Fraction(toks) => {
            if toks.len() == 1 {
                state.append_to_body(vstd::slice::slice_to_vec(toks[0].as_slice()));
                proof {
                    assert(view_math(*expr) matches SpecMathExpr::Fraction(tv) && tv
                        == toks.deep_view());
                    assert(toks.deep_view()[0] == toks@[0]@);
                    assert(state@.body =~= old(state)@.body + spec_render_fraction(
                        toks.deep_view(),
                    ));
                }
            } else if toks.len() >= 2 {
                state.append_to_body(frac_open_bytes());
                state.append_to_body(vstd::slice::slice_to_vec(toks[0].as_slice()));
                state.append_to_body(frac_mid_bytes());
                let slash = slash_bytes();
                state.append_to_body(join_from(toks, 1, slash.as_slice()));
                let mut close: Vec<u8> = Vec::new();
                close.push(125);
                state.append_to_body(close);
                proof {
                    assert(toks.deep_view().skip(1) =~= toks.deep_view().drop_first());
                    assert(toks.deep_view()[0] == toks@[0]@);
                    assert(state@.body =~= old(state)@.body + spec_render_fraction(
                        toks.deep_view(),
                    ));
                }
            } else {
                proof {
                    assert(state@.body =~= old(state)@.body + spec_render_fraction(
                        toks.deep_view(),
                    ));
                }
            }
        },
    }
    proof {
        assert(old(state)@.body.is_prefix_of(state@.body));
    }
}

fn process_math_list(v: &Vec<MathExpr>, state: &mut LatexState)
    ensures
        final(state)@ == (SpecState { body: final(state)@.body, ..old(state)@ }),
        old(state)@.body.is_prefix_of(final(state)@.body),
        (!old(state)@.python || math_list_known(
            crate::ast::view_math_list(v@),
            old(state)@.matrices,
        )) ==> final(state)@.body == old(state)@.body + spec_render_math_list(
            crate::ast::view_math_list(v@),
            old(state)@.variables,
            old(state)@.matrices,
        ),
    decreases math_list_size(v@), 1int,
{
    let ghost st0 = state@;
    let ghost lv = crate::ast::view_math_list(v@);
    proof {
        crate::ast::lemma_view_math_list_len(v@);
    }
    let mut j: usize = 0;
    while j < v.len()
        invariant
            0 <= j <= v@.len(),
            lv == crate::ast::view_math_list(v@),
            lv.len() == v@.len(),
            forall|x: int| 0 <= x < v@.len() ==> lv[x] == view_math(v@[x]),
            state@ == (SpecState { body: state@.body, ..st0 }),
            st0.body.is_prefix_of(state@.body),
            (!st0.python || math_list_known(lv, st0.matrices)) ==> state@.body == st0.body
                + spec_render_math_list(lv.take(j as int), st0.variables, st0.matrices),
        decreases v@.len() - j,
    {
        let ghost st_prev = state@;
        proof {
            lemma_math_list_size_elem(v@, j as int);
            if math_list_known(lv, st0.matrices) {
                lemma_math_list_known_elem(lv, j as int, st0.matrices);
            }
        }
        process_maths(&v[j], state);
        proof {
            if !st0.python || math_list_known(lv, st0.matrices) {
                assert(lv.take(j + 1) =~= lv.take(j as int).push(lv[j as int]));
                lemma_math_list_snoc(lv.take(j as int), lv[j as int], st0.variables, st0.matrices);
                assert(state@.body =~= st0.body + spec_render_math_list(
                    lv.take(j + 1),
                    st0.variables,
                    st0.matrices,
                ));
            }
            assert(st0.body.is_prefix_of(state@.body));
        }
        j = j + 1;
    }
    proof {
        assert(lv.take(v@.len() as int) =~= lv);
    }
}

/// Rebuild the expression text of a code node.
pub fn reconstruct_code(ce: &CodeExpr) -> (r: Vec<u8>)
    ensures
        r@ == spec_reconstruct(ce@),
{
    match ce {
        CodeExpr::IdentRef(n) => vstd::slice::slice_to_vec(n.as_slice()),
        CodeExpr::Call(n, args) => {
            let mut out = vstd::slice::slice_to_vec(n.as_slice());
            out.push(40);
            let sep = comma_space_bytes();
            let joined = join_from(args, 0, sep.as_slice());
            push_all(&mut out, joined.as_slice());
            out.push(41);
            proof {
                assert(args.deep_view().skip(0) =~= args.deep_view());
                assert(out@ =~= spec_reconstruct(ce@));
            }
            out
        },
        CodeExpr::Raw(t) => vstd::slice::slice_to_vec(t.as_slice()),
    }
}

fn all_numchars_exec(t: &[u8]) -> (r: bool)
    ensures
        r == all_numchars(t@),
{
    if t.len() == 0 {
        return false;
    }
    let mut k: usize = 0;
    while k < t.len()
        invariant
            0 <= k <= t@.len(),
            forall|x: int| 0 <= x < k ==> is_numchar(t@[x]),
        decreases t@.len() - k,
    {
        if !byte_is_numchar(t[k]) {
            return false;
        }
        k = k + 1;
    }
    true
}

/// The self-contained evaluation of one expression text.
fn internal_eval_raw(vars: &Vec<(Vec<u8>, Vec<u8>)>, code: &[u8]) -> (r: Vec<u8>)
    ensures
        r@ == spec_eval_raw(code@, vars@.map_values(|p: (Vec<u8>, Vec<u8>)| (p.0@, p.1@))),
{
    let u = trim_bytes(code);
    if all_numchars_exec(u.as_slice()) {
        u
    } else {
        match lookup_variable(vars, u.as_slice()) {
            Some(v) => v,
            None => {
                let mut out = error_prefix_bytes();
                push_all(&mut out, u.as_slice());
                let tail = is_not_defined_bytes();
                push_all(&mut out, tail.as_slice());
                proof {
                    assert(out@ =~= err_text(spec_trim(code@) + lit_is_not_defined()));
                }
                out
            },
        }
    }
}

impl LatexState {
    /// Evaluate one expression text and append what it renders to. With the
    /// Python engine the text is first evaluated as an expression; if that
    /// fails it is run as statements, appending nothing on success and an
    /// error marker on failure. With no engine the self-contained
    /// evaluation applies and the result is exact.
    pub fn evaluate_python_code(&mut self, code: &[u8])
        ensures
            final(self)@ == (SpecState { body: final(self)@.body, ..old(self)@ }),
            old(self)@.body.is_prefix_of(final(self)@.body),
            !old(self)@.python ==> final(self)@.body == old(self)@.body + spec_eval_raw(
                code@,
                old(self)@.variables,
            ),
    {
        let outcome: Option<Vec<u8>> = match &self.engine {
            Engine::Internal => Some(internal_eval_raw(&self.variables, code)),
            Engine::Python(pe) => match py_eval(pe, code) {
                Ok(v) => Some(v),
                Err(_) => match py_run(pe, code) {
                    Ok(u) => None,
                    Err(m) => {
                        let mut out = error_prefix_bytes();
                        push_all(&mut out, m.as_slice());
                        Some(out)
                    },
                },
            },
        };
        match outcome {
            Some(v) => self.append_to_body(v),
            None => (),
        }
    }
}

/// What one line of a setup code region means to the self-contained
/// compiler, and where the next line begins. Assignments of matrix literals
/// and of scalar values are stored; every other line is skipped.
pub open spec fn spec_define(s: Seq<u8>, i: int, st: SpecState) -> SpecState
    decreases crate::grammar::remaining(s, i), 1int, when 0 <= i <= s.len()
{
    let j = i + crate::util::ws_run(s, i);
    proof {
        crate::util::lemma_ws_run(s, i);
    }
    if j >= s.len() {
        st
    } else if crate::util::is_letter(s[j]) {
        proof {
            crate::util::lemma_alnum_run(s, j);
        }
        let n = crate::util::alnum_run(s, j);
        let w = s.subrange(j, j + n);
        let j2 = j + n;
        let k = j2 + crate::util::ws_run(s, j2);
        proof {
            crate::util::lemma_ws_run(s, j2);
        }
        if k < s.len() && s[k] == 61 {
            let k2 = k + 1 + crate::util::ws_run(s, k + 1);
            proof {
                crate::util::lemma_ws_run(s, k + 1);
            }
            if k2 < s.len() && s[k2] == 91 {
                match crate::grammar::spec_parse_matrix(s, k2) {
                    Ok((rows, p)) => spec_define(
                        s,
                        crate::grammar::pos_after(k2 + 1, p),
                        SpecState { matrices: st.matrices.push((w, rows)), ..st },
                    ),
                    Err(e) => spec_define_skip_line(s, j, st),
                }
            } else {
                let qn = find_byte(s, k + 1, 10);
                proof {
                    lemma_find_byte(s, k + 1, 10);
                }
                let endpos = if qn < 0 {
                    s.len() as int
                } else {
                    qn
                };
                let v = spec_trim(s.subrange(k + 1, endpos));
                if v.len() == 0 {
                    spec_define(s, endpos, st)
                } else {
                    spec_define(s, endpos, SpecState { variables: st.variables.push((w, v)), ..st })
                }
            }
        } else {
            spec_define_skip_line(s, j, st)
        }
    } else {
        spec_define_skip_line(s, j, st)
    }
}

/// Skip to the start of the next line; `j` holds a non-whitespace byte.
pub open spec fn spec_define_skip_line(s: Seq<u8>, j: int, st: SpecState) -> SpecState
    decreases crate::grammar::remaining(s, j), 0int, when 0 <= j < s.len() && !is_ws(s[j])
{
    let qn = find_byte(s, j, 10);
    proof {
        lemma_find_byte(s, j, 10);
    }
    if qn < 0 {
        st
    } else {
        spec_define(s, qn + 1, st)
    }
}

/// The self-contained `define` operation: walk a code region line by line,
/// storing matrix and scalar assignments.
fn define_from(state: &mut LatexState, s: &[u8], i: usize)
    requires
        i <= s@.len(),
    ensures
        final(state)@ == spec_define(s@, i as int, old(state)@),
        final(state)@.python == old(state)@.python,
    decreases s@.len() - i, 1int,
{
    let ghost st0 = state@;
    let j = crate::util::skip_ws(s, i);
    proof {
        crate::util::lemma_ws_run(s@, i as int);
    }
    if j >= s.len() {
        return ;
    }
    if crate::util::byte_is_letter(s[j]) {
        let (w, j2) = crate::tokeniser::get_alphanumeric(s, j);
        let ghost wv = w@;
        let k = crate::util::skip_ws(s, j2);
        if k < s.len() && s[k] == 61 {
            let k2 = crate::util::skip_ws(s, k + 1);
            if k2 < s.len() && s[k2] == 91 {
                match crate::grammar::parse_matrix(s, k2) {
                    Ok((rows, p)) => {
                        let ghost rv = rows.deep_view();
                        state.add_matrix(w, rows);
                        proof {
                            assert(crate::grammar::pos_after(k2 + 1 as int, p as int)
                                == p as int);
                            assert(state@ == (SpecState {
                                matrices: st0.matrices.push((wv, rv)),
                                ..st0
                            }));
                        }
                        define_from(state, s, p);
                    },
                    Err(_) => {
                        define_skip_line(state, s, j);
                    },
                }
            } else {
                let endpos = match crate::grammar::find_byte_exec(s, k + 1, 10) {
                    None => s.len(),
                    Some(qn) => qn,
                };
                let part = vstd::slice::slice_subrange(s, k + 1, endpos);
                let v = trim_bytes(part);
                if v.len() == 0 {
                    define_from(state, s, endpos);
                } else {
                    state.add_variable(w, v);
                    define_from(state, s, endpos);
                }
            }
        } else {
            define_skip_line(state, s, j);
        }
    } else {
        define_skip_line(state, s, j);
    }
}

fn define_skip_line(state: &mut LatexState, s: &[u8], j: usize)
    requires
        j < s@.len(),
        !is_ws(s@[j as int]),
    ensures
        final(state)@ == spec_define_skip_line(s@, j as int, old(state)@),
        final(state)@.python == old(state)@.python,
    decreases s@.len() - j, 0int,
{
    let n = s.len();
    match crate::grammar::find_byte_exec(s, j, 10) {
        None => (),
        Some(qn) => {
            proof {
                assert(qn < n);
            }
            define_from(state, s, qn + 1);
        },
    }
}

impl LatexState {
    /// The `define` operation of the setup block: hand a code region to the
    /// engine. With the Python engine the region runs as Python statements
    /// and a failure is returned (the compile treats it as fatal); the
    /// visible state does not change. With no engine the region's matrix
    /// and scalar assignments are stored, exactly.
    pub fn initialise_python_setup(&mut self, code: &[u8]) -> (r: Result<(), Vec<u8>>)
        ensures
            !old(self)@.python ==> (r matches Ok(u) && final(self)@ == spec_define(
                code@,
                0,
                old(self)@,
            )),
            old(self)@.python ==> final(self)@ == old(self)@,
            final(self)@.python == old(self)@.python,
    {
        let py_res: Option<Result<(), Vec<u8>>> = match &self.engine {
            Engine::Python(pe) => Some(py_run(pe, code)),
            Engine::Internal => None,
        };
        match py_res {
            Some(r) => r,
            None => {
                define_from(self, code, 0);
                Ok(())
            },
        }
    }
}

/// The effect of one setup item on the state.
pub open spec fn spec_apply_item(it: SpecSetupItem, st: SpecState) -> SpecState {
    match it {
        SpecSetupItem::DocumentClass(raw) => match spec_extract(raw) {
            Some(c) => SpecState { document_class: c, ..st },
            None => st,
        },
        SpecSetupItem::Title(raw) => match spec_extract(raw) {
            Some(t) => SpecState { title: t, ..st },
            None => st,
        },
        SpecSetupItem::Author(raw) => match spec_extract(raw) {
            Some(a) => SpecState { authors: st.authors.push(a), ..st },
            None => st,
        },
        SpecSetupItem::CodeRegion(body) => if st.python {
            st
        } else {
            spec_define(body, 0, st)
        },
        SpecSetupItem::MatrixDef(n, rows) => SpecState { matrices: st.matrices.push((n, rows)), ..st },
        SpecSetupItem::VarDef(n, v) => SpecState { variables: st.variables.push((n, v)), ..st },
    }
}

/// The effect of the whole setup block, item by item in order.
pub open spec fn spec_apply_setup(items: Seq<SpecSetupItem>, st: SpecState) -> SpecState
    decreases items.len(),
{
    if items.len() == 0 {
        st
    } else {
        spec_apply_setup(items.drop_first(), spec_apply_item(items[0], st))
    }
}

proof fn lemma_apply_setup_snoc(items: Seq<SpecSetupItem>, it: SpecSetupItem, st: SpecState)
    ensures
        spec_apply_setup(items.push(it), st) == spec_apply_item(it, spec_apply_setup(items, st)),
    decreases items.len(),
{
    if items.len() == 0 {
        assert(items.push(it).drop_first() =~= Seq::<SpecSetupItem>::empty());
        assert(items.push(it)[0] == it);
        assert(spec_apply_setup(items.push(it).drop_first(), spec_apply_item(it, st))
            == spec_apply_item(it, st));
        assert(spec_apply_setup(items, st) == st);
    } else {
        assert(items.push(it).drop_first() =~= items.drop_first().push(it));
        assert(items.push(it)[0] == items[0]);
        lemma_apply_setup_snoc(items.drop_first(), it, spec_apply_item(items[0], st));
        assert(spec_apply_setup(items.push(it), st) == spec_apply_setup(
            items.drop_first().push(it),
            spec_apply_item(items[0], st),
        ));
        assert(spec_apply_setup(items, st) == spec_apply_setup(
            items.drop_first(),
            spec_apply_item(items[0], st),
        ));
    }
}

/// Does any of the setup items hand code to the engine? Only such an item
/// can make setup interpretation fail.
pub open spec fn has_code_region(items: Seq<SpecSetupItem>) -> bool {
    exists|k: int| 0 <= k < items.len() && items[k] is CodeRegion
}

/// Interpret the setup items into the state: metadata is extracted and
/// stored, matrix and scalar definitions are recorded, and each code region
/// is handed to the engine's define operation. A define failure aborts,
/// since later code may depend on earlier declarations; with no engine
/// attached — or with no code region among the items — the interpretation
/// cannot fail. Setup never writes to the output buffer; on a failure the
/// state is the interpretation of the items before the failing code region.
pub fn parse_setup_block(items: &Vec<SetupItem>, state: &mut LatexState) -> (r: Result<
    (),
    LatexError,
>)
    ensures
        r matches Ok(u) ==> final(state)@ == spec_apply_setup(
            view_setup_items(items@),
            old(state)@,
        ),
        !old(state)@.python ==> r matches Ok(u),
        !has_code_region(view_setup_items(items@)) ==> r matches Ok(u),
        r matches Err(e) ==> e is Engine,
        r matches Err(e) ==> (exists|k: int|
            0 <= k < items@.len() && #[trigger] view_setup_items(items@)[k] is CodeRegion
                && final(state)@ == spec_apply_setup(
                view_setup_items(items@).take(k),
                old(state)@,
            )),
        final(state)@.body == old(state)@.body,
    decreases items@.len(),
{
    let ghost st0 = state@;
    let ghost iv = view_setup_items(items@);
    let mut idx: usize = 0;
    while idx < items.len()
        invariant
            0 <= idx <= items@.len(),
            iv == view_setup_items(items@),
            st0 == old(state)@,
            state@ == spec_apply_setup(iv.take(idx as int), st0),
            st0.python == state@.python,
        decreases items@.len() - idx,
    {
        let ghost st_prev = state@;
        let it = &items[idx];
        match it {
            SetupItem::DocumentClass(raw) => {
                match extract_string_content(raw.as_slice()) {
                    Some(c) => state.set_document_class(c),
                    None => (),
                }
            },
            SetupItem::Title(raw) => {
                match extract_string_content(raw.as_slice()) {
                    Some(t) => state.set_title(t),
                    None => (),
                }
            },
            SetupItem::Author(raw) => {
                match extract_string_content(raw.as_slice()) {
                    Some(a) => state.add_author(a),
                    None => (),
                }
            },
            SetupItem::CodeRegion(body) => {
                match state.initialise_python_setup(body.as_slice()) {
                    Ok(u) => (),
                    Err(m) => {
                        proof {
                            assert(iv[idx as int] is CodeRegion);
                            assert(state@ == spec_apply_setup(iv.take(idx as int), st0));
                            lemma_apply_setup_fields(iv.take(idx as int), st0);
                        }
                        return Err(LatexError::Engine(m));
                    },
                }
            },
            SetupItem::MatrixDef(n, rows) => {
                let n2 = vstd::slice::slice_to_vec(n.as_slice());
                let rows2 = crate::state::clone_rows(rows);
                state.add_matrix(n2, rows2);
            },
            SetupItem::VarDef(n, v) => {
                let n2 = vstd::slice::slice_to_vec(n.as_slice());
                let v2 = vstd::slice::slice_to_vec(v.as_slice());
                state.add_variable(n2, v2);
            },
        }
        proof {
            assert(iv.take(idx + 1) =~= iv.take(idx as int).push(iv[idx as int]));
            lemma_apply_setup_snoc(iv.take(idx as int), iv[idx as int], st0);
            assert(iv[idx as int] == items@[idx as int]@);
            assert(state@ == spec_apply_setup(iv.take(idx + 1), st0));
        }
        idx = idx + 1;
    }
    proof {
        assert(iv.take(items@.len() as int) =~= iv);
        lemma_apply_setup_fields(iv, st0);
    }
    Ok(())
}

/// Render one code-interpolation node: rebuild its expression text and
/// evaluate it, appending the rendering. A failure renders as an inline
/// error marker; it never aborts the rest of the document.
pub fn process_code(ce: &CodeExpr, state: &mut LatexState)
    ensures
        final(state)@ == (SpecState { body: final(state)@.body, ..old(state)@ }),
        old(state)@.body.is_prefix_of(final(state)@.body),
        !old(state)@.python ==> final(state)@.body == old(state)@.body + spec_eval_raw(
            spec_reconstruct(ce@),
            old(state)@.variables,
        ),
{
    let text = reconstruct_code(ce);
    state.evaluate_python_code(text.as_slice());
}

/// Append one prose span under the padding rule.
fn process_text(raw: &[u8], state: &mut LatexState)
    ensures
        final(state)@ == (SpecState { body: final(state)@.body, ..old(state)@ }),
        final(state)@.body == old(state)@.body + spec_pad_text(raw@),
{
    let t = trim_bytes(raw);
    if t.len() == 0 {
        proof {
            assert(state@.body =~= old(state)@.body + spec_pad_text(raw@));
        }
        return ;
    }
    let b = t[0];
    if crate::util::byte_is_upper(b) || b == 46 || b == 58 {
        state.append_to_body(t);
        let mut sp: Vec<u8> = Vec::new();
        sp.push(32);
        state.append_to_body(sp);
        proof {
            assert(state@.body =~= old(state)@.body + spec_pad_text(raw@));
        }
    } else if crate::util::byte_is_lower(b) {
        let mut sp: Vec<u8> = Vec::new();
        sp.push(32);
        state.append_to_body(sp);
        state.append_to_body(t);
        let mut sp2: Vec<u8> = Vec::new();
        sp2.push(32);
        state.append_to_body(sp2);
        proof {
            assert(state@.body =~= old(state)@.body + spec_pad_text(raw@));
        }
    } else {
        state.append_to_body(t);
        proof {
            assert(state@.body =~= old(state)@.body + spec_pad_text(raw@));
        }
    }
}

/// Render the document nodes in order into the output buffer. Only the
/// buffer changes; with no engine attached the whole rendering is exact,
/// and with any engine the appended text splits node by node: text spans
/// by the padding rule, math inside its delimiters.
pub fn parse_document_block(nodes: &Vec<DocNode>, state: &mut LatexState)
    ensures
        final(state)@ == (SpecState { body: final(state)@.body, ..old(state)@ }),
        old(state)@.body.is_prefix_of(final(state)@.body),
        !old(state)@.python ==> final(state)@.body == old(state)@.body + spec_render_nodes(
            view_doc_nodes(nodes@),
            old(state)@.variables,
            old(state)@.matrices,
        ),
        nodes_shape(
            view_doc_nodes(nodes@),
            final(state)@.body.skip(old(state)@.body.len() as int),
        ),
{
    let ghost st0 = state@;
    let ghost nv = view_doc_nodes(nodes@);
    proof {
        assert(state@.body.skip(st0.body.len() as int) =~= Seq::<u8>::empty());
        assert(nv.take(0) =~= Seq::<SpecDocNode>::empty());
    }
    let mut idx: usize = 0;
    while idx < nodes.len()
        invariant
            0 <= idx <= nodes@.len(),
            st0 == old(state)@,
            nv == view_doc_nodes(nodes@),
            state@ == (SpecState { body: state@.body, ..st0 }),
            st0.body.is_prefix_of(state@.body),
            !st0.python ==> state@.body == st0.body + spec_render_nodes(
                nv.take(idx as int),
                st0.variables,
                st0.matrices,
            ),
            nodes_shape(nv.take(idx as int), state@.body.skip(st0.body.len() as int)),
        decreases nodes@.len() - idx,
    {
        let ghost st_prev = state@;
        let node = &nodes[idx];
        match node {
            DocNode::Text(raw) => {
                process_text(raw.as_slice(), state);
                proof {
                    crate::util::lemma_prefix_append(st_prev.body, spec_pad_text(raw@));
                    assert(nv[idx as int] == SpecDocNode::Text(raw@));
                    assert(state@.body.skip(st_prev.body.len() as int) =~= spec_pad_text(raw@));
                    assert(node_shape(nv[idx as int], state@.body.skip(
                        st_prev.body.len() as int,
                    )));
                }
            },
            DocNode::InlineMath(e) => {
                state.append_to_body(space_dollar_bytes());
                let ghost b1 = state@.body;
                process_maths(e, state);
                let ghost b2 = state@.body;
                state.append_to_body(dollar_bytes());
                proof {
                    crate::util::lemma_prefix_append(st_prev.body, lit_space_dollar());
                    crate::util::lemma_prefix_append(b2, lit_dollar());
                    crate::util::lemma_prefix_trans(st_prev.body, b1, b2);
                    crate::util::lemma_prefix_trans(st_prev.body, b2, state@.body);
                    let mid = b2.skip(b1.len() as int);
                    assert(b2 =~= b1 + mid);
                    assert(state@.body.skip(st_prev.body.len() as int) =~= lit_space_dollar()
                        + mid + lit_dollar());
                    assert(node_shape(nv[idx as int], state@.body.skip(
                        st_prev.body.len() as int,
                    ))) by {
                        assert(nv[idx as int] == view_doc_nodes(nodes@)[idx as int]);
                        assert(nv[idx as int] is InlineMath);
                        assert(state@.body.skip(st_prev.body.len() as int) == lit_space_dollar()
                            + mid + lit_dollar());
                    }
                }
            },
            DocNode::NewlineMath(e) => {
                state.append_to_body(nl_dollar2_bytes());
                let ghost b1 = state@.body;
                process_maths(e, state);
                let ghost b2 = state@.body;
                state.append_to_body(dollar2_nl_bytes());
                proof {
                    crate::util::lemma_prefix_append(st_prev.body, lit_nl_dollar2());
                    crate::util::lemma_prefix_append(b2, lit_dollar2_nl());
                    crate::util::lemma_prefix_trans(st_prev.body, b1, b2);
                    crate::util::lemma_prefix_trans(st_prev.body, b2, state@.body);
                    let mid = b2.skip(b1.len() as int);
                    assert(b2 =~= b1 + mid);
                    assert(state@.body.skip(st_prev.body.len() as int) =~= lit_nl_dollar2()
                        + mid + lit_dollar2_nl());
                    assert(node_shape(nv[idx as int], state@.body.skip(
                        st_prev.body.len() as int,
                    ))) by {
                        assert(nv[idx as int] == view_doc_nodes(nodes@)[idx as int]);
                        assert(nv[idx as int] is NewlineMath);
                        assert(state@.body.skip(st_prev.body.len() as int) == lit_nl_dollar2()
                            + mid + lit_dollar2_nl());
                    }
                }
            },
            DocNode::CodeOutput(ce) => {
                process_code(ce, state);
                proof {
                    assert(nv[idx as int] == nodes@[idx as int]@);
                    assert(node_shape(nv[idx as int], state@.body.skip(
                        st_prev.body.len() as int,
                    )));
                }
            },
        }
        proof {
            assert(nv[idx as int] == nodes@[idx as int]@);
            assert(nv.take(idx + 1) =~= nv.take(idx as int).push(nv[idx as int]));
            if !st0.python {
                lemma_render_nodes_snoc(
                    nv.take(idx as int),
                    nv[idx as int],
                    st0.variables,
                    st0.matrices,
                );
                assert(state@.body =~= st0.body + spec_render_nodes(
                    nv.take(idx + 1),
                    st0.variables,
                    st0.matrices,
                ));
            }
            crate::util::lemma_prefix_trans(st0.body, st_prev.body, state@.body);
            assert(st0.body.is_prefix_of(state@.body));
            let prev_seg = st_prev.body.skip(st0.body.len() as int);
            let seg = state@.body.skip(st_prev.body.len() as int);
            assert(st_prev.body =~= st0.body + prev_seg);
            assert(state@.body =~= st_prev.body + seg);
            assert(state@.body.skip(st0.body.len() as int) =~= prev_seg + seg);
            lemma_nodes_shape_snoc(nv.take(idx as int), nv[idx as int], prev_seg, seg);
        }
        idx = idx + 1;
    }
    proof {
        assert(nv.take(nodes@.len() as int) =~= nv);
    }
}

/// The fixed preamble built from the gathered metadata.
pub open spec fn spec_preamble(st: SpecState) -> Seq<u8> {
    lit_documentclass_open() + st.document_class + lit_close_brace_nl() + lit_usepackage_amsmath()
        + lit_title_open() + st.title + lit_close_brace_nl() + lit_author_open() + spec_join(
        st.authors,
        lit_comma_space(),
    ) + lit_close_brace_nl() + lit_begin_document_line()
}

/// A state with nothing gathered yet, as one compile starts with.
pub open spec fn spec_init_state(python: bool) -> SpecState {
    SpecState {
        document_class: Seq::<u8>::empty(),
        document_options: Seq::<Seq<u8>>::empty(),
        title: Seq::<u8>::empty(),
        authors: Seq::<Seq<u8>>::empty(),
        body: Seq::<u8>::empty(),
        matrices: Seq::<(Seq<u8>, Seq<Seq<Seq<u8>>>)>::empty(),
        functions: Seq::<(Seq<u8>, crate::state::SpecFunction)>::empty(),
        variables: Seq::<(Seq<u8>, Seq<u8>)>::empty(),
        python,
    }
}

proof fn lemma_define_fields(s: Seq<u8>, i: int, st: SpecState)
    requires
        0 <= i <= s.len(),
    ensures
        spec_define(s, i, st) == (SpecState {
            matrices: spec_define(s, i, st).matrices,
            variables: spec_define(s, i, st).variables,
            ..st
        }),
    decreases crate::grammar::remaining(s, i), 1int,
{
    let j = i + crate::util::ws_run(s, i);
    crate::util::lemma_ws_run(s, i);
    if j >= s.len() {
    } else if crate::util::is_letter(s[j]) {
        crate::util::lemma_alnum_run(s, j);
        let n = crate::util::alnum_run(s, j);
        let w = s.subrange(j, j + n);
        let j2 = j + n;
        let k = j2 + crate::util::ws_run(s, j2);
        crate::util::lemma_ws_run(s, j2);
        if k < s.len() && s[k] == 61 {
            let k2 = k + 1 + crate::util::ws_run(s, k + 1);
            crate::util::lemma_ws_run(s, k + 1);
            if k2 < s.len() && s[k2] == 91 {
                crate::grammar::lemma_parse_matrix_bound(s, k2);
                match crate::grammar::spec_parse_matrix(s, k2) {
                    Ok((rows, p)) => {
                        lemma_define_fields(
                            s,
                            crate::grammar::pos_after(k2 + 1, p),
                            SpecState { matrices: st.matrices.push((w, rows)), ..st },
                        );
                    },
                    Err(e) => {
                        lemma_define_skip_fields(s, j, st);
                    },
                }
            } else {
                let qn = find_byte(s, k + 1, 10);
                lemma_find_byte(s, k + 1, 10);
                let endpos = if qn < 0 {
                    s.len() as int
                } else {
                    qn
                };
                let v = spec_trim(s.subrange(k + 1, endpos));
                if v.len() == 0 {
                    lemma_define_fields(s, endpos, st);
                } else {
                    lemma_define_fields(
                        s,
                        endpos,
                        SpecState { variables: st.variables.push((w, v)), ..st },
                    );
                }
            }
        } else {
            lemma_define_skip_fields(s, j, st);
        }
    } else {
        lemma_define_skip_fields(s, j, st);
    }
}

proof fn lemma_define_skip_fields(s: Seq<u8>, j: int, st: SpecState)
    requires
        0 <= j < s.len(),
        !is_ws(s[j]),
    ensures
        spec_define_skip_line(s, j, st) == (SpecState {
            matrices: spec_define_skip_line(s, j, st).matrices,
            variables: spec_define_skip_line(s, j, st).variables,
            ..st
        }),
    decreases crate::grammar::remaining(s, j), 0int,
{
    let qn = find_byte(s, j, 10);
    lemma_find_byte(s, j, 10);
    if qn < 0 {
    } else {
        lemma_define_fields(s, qn + 1, st);
    }
}

proof fn lemma_apply_item_fields(it: SpecSetupItem, st: SpecState)
    ensures
        spec_apply_item(it, st).body == st.body,
        spec_apply_item(it, st).python == st.python,
    decreases 0int,
{
    match it {
        SpecSetupItem::CodeRegion(body) => {
            if !st.python {
                lemma_define_fields(body, 0, st);
            }
        },
        _ => {},
    }
}

proof fn lemma_apply_setup_fields(items: Seq<SpecSetupItem>, st: SpecState)
    ensures
        spec_apply_setup(items, st).body == st.body,
        spec_apply_setup(items, st).python == st.python,
    decreases items.len(),
{
    if items.len() > 0 {
        lemma_apply_item_fields(items[0], st);
        lemma_apply_setup_fields(items.drop_first(), spec_apply_item(items[0], st));
    }
}

/// The whole compile of an input with no scripting engine attached: parse,
/// apply the setup, and emit the preamble, the rendered document and the
/// document terminator. An `Err` carries the position of the syntax error.
pub open spec fn spec_compile(s: Seq<u8>) -> Result<Seq<u8>, int> {
    match spec_parse_file(s) {
        Err(p) => Err(p),
        Ok((items, nodes)) => {
            let st1 = spec_apply_setup(items, spec_init_state(false));
            Ok(
                spec_preamble(st1) + spec_render_nodes(nodes, st1.variables, st1.matrices)
                    + lit_end_document_line(),
            )
        },
    }
}

/// Compile an input against a fresh state. Parsing is engine-independent:
/// an `Err(Syntax(p))` arises exactly when the grammar fails at `p`, and an
/// `Err(Engine(_))` only when some setup item hands code to an attached
/// engine and its define fails — so an input that parses and has no code
/// region always compiles. On any error nothing is written to the output
/// buffer. With no engine the whole output is pinned down by
/// `spec_compile`.
#[verifier::rlimit(60)]
pub fn parse_to_latex_with(state: &mut LatexState, input: &[u8]) -> (r: Result<
    Vec<u8>,
    LatexError,
>)
    requires
        old(state)@ == spec_init_state(old(state)@.python),
    ensures
        !old(state)@.python ==> (match r {
            Ok(out) => spec_compile(input@) == Ok::<Seq<u8>, int>(out@),
            Err(e) => (e matches LatexError::Syntax(p) && spec_compile(input@) == Err::<
                Seq<u8>,
                int,
            >(p as int)),
        }),
        (match spec_parse_file(input@) {
            Err(p) => (r matches Err(e) && e@ == SpecLatexError::Syntax(p)),
            Ok(f) => true,
        }),
        (spec_parse_file(input@) matches Ok(f) && !has_code_region(f.0)) ==> r matches Ok(out),
        r matches Err(e) ==> (match e@ {
            SpecLatexError::Syntax(p) => spec_parse_file(input@) == Err::<
                (Seq<SpecSetupItem>, Seq<SpecDocNode>),
                int,
            >(p),
            SpecLatexError::Engine(m) => (spec_parse_file(input@) matches Ok(f)
                && has_code_region(f.0)),
        }),
        r matches Err(e) ==> final(state)@.body == old(state)@.body,
        r matches Ok(out) ==> out@.len() >= 15 && out@.skip(out@.len() - 15)
            == lit_end_document_line(),
        r matches Ok(out) ==> (spec_parse_file(input@) matches Ok(f) && (exists|mid: Seq<u8>|
            out@ == spec_preamble(spec_apply_setup(f.0, old(state)@)) + mid
                + lit_end_document_line())),
{
    let ghost st0 = state@;
    match parse_file(input) {
        Err(p) => Err(LatexError::Syntax(p)),
        Ok(pf) => {
            match parse_setup_block(&pf.setup, state) {
                Err(e) => {
                    proof {
                        assert(e is Engine);
                    }
                    Err(e)
                },
                Ok(u) => {
                    let ghost st1 = state@;
                    proof {
                        lemma_apply_setup_fields(view_setup_items(pf.setup@), st0);
                        assert(st1.body =~= Seq::<u8>::empty());
                    }
                    crate::plugin::build_preamble(state);
                    parse_document_block(&pf.document, state);
                    let ghost body_doc = state@.body;
                    state.append_to_body(end_document_line_bytes());
                    let out = vstd::slice::slice_to_vec(state.document.body.as_slice());
                    proof {
                        if !st0.python {
                            assert(out@ =~= spec_preamble(st1) + spec_render_nodes(
                                view_doc_nodes(pf.document@),
                                st1.variables,
                                st1.matrices,
                            ) + lit_end_document_line());
                        }
                        assert(out@.len() >= 15);
                        assert(out@.skip(out@.len() - 15) =~= lit_end_document_line());
                        let b_pre = st1.body + spec_preamble(st1);
                        assert(b_pre =~= spec_preamble(st1));
                        assert(b_pre.is_prefix_of(body_doc));
                        let mid = body_doc.skip(b_pre.len() as int);
                        assert(body_doc =~= b_pre + mid);
                        assert(out@ =~= spec_preamble(st1) + mid + lit_end_document_line());
                        assert(exists|m: Seq<u8>|
                            out@ == spec_preamble(st1) + m + lit_end_document_line());
                    }
                    Ok(out)
                },
            }
        },
    }
}

/// Compile an input with the embedded Python engine, as a fresh compile.
/// Whatever the engine computes, a successful output is the preamble for
/// the interpreted setup, then the rendered document, then the terminator;
/// errors arise exactly as `parse_to_latex_with` states.
pub fn parse_to_latex(input: &[u8]) -> (r: Result<Vec<u8>, LatexError>)
    ensures
        (match spec_parse_file(input@) {
            Err(p) => (r matches Err(e) && e@ == SpecLatexError::Syntax(p)),
            Ok(f) => true,
        }),
        (spec_parse_file(input@) matches Ok(f) && !has_code_region(f.0)) ==> r matches Ok(out),
        r matches Err(e) ==> (match e@ {
            SpecLatexError::Syntax(p) => spec_parse_file(input@) == Err::<
                (Seq<SpecSetupItem>, Seq<SpecDocNode>),
                int,
            >(p),
            SpecLatexError::Engine(m) => (spec_parse_file(input@) matches Ok(f)
                && has_code_region(f.0)),
        }),
        r matches Ok(out) ==> out@.len() >= 15 && out@.skip(out@.len() - 15)
            == lit_end_document_line(),
        r matches Ok(out) ==> (spec_parse_file(input@) matches Ok(f) && (exists|mid: Seq<u8>|
            out@ == spec_preamble(spec_apply_setup(f.0, spec_init_state(true))) + mid
                + lit_end_document_line())),
{
    let mut state = LatexState::new();
    proof {
        assert(state@ =~~= spec_init_state(true));
    }
    parse_to_latex_with(&mut state, input)
}

/// Compile an input with no scripting engine: the self-contained mode,
/// whose output is pinned down exactly.
pub fn parse_to_latex_internal(input: &[u8]) -> (r: Result<Vec<u8>, LatexError>)
    ensures
        (match r {
            Ok(out) => spec_compile(input@) == Ok::<Seq<u8>, int>(out@),
            Err(e) => (e matches LatexError::Syntax(p) && spec_compile(input@) == Err::<
                Seq<u8>,
                int,
            >(p as int)),
        }),
{
    let mut state = LatexState::new_internal();
    proof {
        assert(state@ =~~= spec_init_state(false));
    }
    parse_to_latex_with(&mut state, input)
}

} // verus!

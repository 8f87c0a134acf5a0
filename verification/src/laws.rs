//! Laws of the compiler, stated over the same mathematical functions that
//! the executable contracts use and proved once and for all.

use vstd::prelude::*;

use crate::ast::{SpecDocNode, SpecSetupItem};
use crate::grammar::spec_parse_file;
use crate::lit::lit_end_document_line;
use crate::parser::{
    spec_apply_setup, spec_compile, spec_init_state, spec_pad_text, spec_preamble,
    spec_render_nodes,
};
use crate::util::{
    is_lower, is_upper, is_ws, leading_ws, leading_ws_dropped, lemma_leading_ws_bounds,
    lemma_trailing_ws_bounds, spec_trim, trailing_ws,
};

verus! {

/// A compiled input whose document block is empty is exactly the preamble
/// for its setup followed by the document terminator: the output ends with
/// the terminator and contains no prose.
pub proof fn lemma_empty_document_no_prose(s: Seq<u8>, items: Seq<SpecSetupItem>)
    requires
        spec_parse_file(s) == Ok::<(Seq<SpecSetupItem>, Seq<SpecDocNode>), int>(
            (items, Seq::<SpecDocNode>::empty()),
        ),
    ensures
        spec_compile(s) == Ok::<Seq<u8>, int>(
            spec_preamble(spec_apply_setup(items, spec_init_state(false)))
                + lit_end_document_line(),
        ),
        (spec_compile(s) matches Ok(out) && out.len() >= lit_end_document_line().len()),
        (spec_compile(s) matches Ok(out) && out.skip(
            out.len() - lit_end_document_line().len(),
        ) == lit_end_document_line()),
{
    let st1 = spec_apply_setup(items, spec_init_state(false));
    assert(spec_render_nodes(Seq::<SpecDocNode>::empty(), st1.variables, st1.matrices)
        =~= Seq::<u8>::empty());
    let out = spec_preamble(st1) + spec_render_nodes(
        Seq::<SpecDocNode>::empty(),
        st1.variables,
        st1.matrices,
    ) + lit_end_document_line();
    assert(out =~= spec_preamble(st1) + lit_end_document_line());
    assert(out.skip(out.len() - lit_end_document_line().len()) =~= lit_end_document_line());
}

/// A trimmed span trims to itself.
proof fn lemma_trim_of_trimmed(t: Seq<u8>)
    requires
        t.len() > 0,
        !is_ws(t[0]),
        !is_ws(t[t.len() - 1]),
    ensures
        spec_trim(t) == t,
{
    assert(leading_ws(t) == 0);
    assert(leading_ws_dropped(t) =~= t);
    assert(trailing_ws(t) == 0);
    assert(spec_trim(t) =~= t);
}

/// What a span trims to is itself free of surrounding whitespace.
proof fn lemma_trim_is_trimmed(s: Seq<u8>)
    ensures
        spec_trim(s).len() > 0 ==> !is_ws(spec_trim(s)[0]),
        spec_trim(s).len() > 0 ==> !is_ws(spec_trim(s)[spec_trim(s).len() - 1]),
{
    lemma_leading_ws_bounds(s);
    lemma_trailing_ws_bounds(leading_ws_dropped(s));
    let t = spec_trim(s);
    if t.len() > 0 {
        let lw = leading_ws(s);
        let d = leading_ws_dropped(s);
        let tw = trailing_ws(d);
        assert(t[0] == s[lw]);
        assert(t[t.len() - 1] == s[s.len() - tw - 1]);
        assert(d[d.len() - tw - 1] == s[s.len() - tw - 1]);
    }
}

/// Appending one space behind a trimmed span trims back to it.
proof fn lemma_trim_trailing_space(t: Seq<u8>)
    requires
        t.len() > 0,
        !is_ws(t[0]),
        !is_ws(t[t.len() - 1]),
    ensures
        spec_trim(t + seq![32u8]) == t,
{
    let u = t + seq![32u8];
    assert(u[0] == t[0]);
    assert(leading_ws(u) == 0);
    assert(leading_ws_dropped(u) =~= u);
    assert(u[u.len() - 1] == 32);
    assert(u.drop_last() =~= t);
    assert(trailing_ws(u) == 1 + trailing_ws(t));
    assert(trailing_ws(t) == 0);
    assert(spec_trim(u) =~= t);
}

/// Padding a trimmed span with one space on each side trims back to it.
proof fn lemma_trim_both_spaces(t: Seq<u8>)
    requires
        t.len() > 0,
        !is_ws(t[0]),
        !is_ws(t[t.len() - 1]),
    ensures
        spec_trim(seq![32u8] + t + seq![32u8]) == t,
{
    let u = seq![32u8] + t + seq![32u8];
    assert(u[0] == 32);
    assert(u.drop_first() =~= t + seq![32u8]);
    assert((t + seq![32u8])[0] == t[0]);
    assert(leading_ws(t + seq![32u8]) == 0);
    assert(leading_ws(u) == 1);
    assert(leading_ws_dropped(u) =~= t + seq![32u8]);
    assert((t + seq![32u8])[t.len() as int] == 32);
    assert((t + seq![32u8]).drop_last() =~= t);
    assert(trailing_ws(t) == 0);
    assert(trailing_ws(t + seq![32u8]) == 1);
    assert(spec_trim(u) =~= t);
}

/// The empty sequence trims to itself.
proof fn lemma_trim_empty()
    ensures
        spec_trim(Seq::<u8>::empty()) == Seq::<u8>::empty(),
{
    assert(spec_trim(Seq::<u8>::empty()) =~= Seq::<u8>::empty());
}

/// How the padding rule classifies a trimmed span: nothing, a sentence
/// start, a lowercase word, or anything else.
pub open spec fn text_class(t: Seq<u8>) -> int {
    if t.len() == 0 {
        0
    } else if is_upper(t[0]) || t[0] == 46 || t[0] == 58 {
        1
    } else if is_lower(t[0]) {
        2
    } else {
        3
    }
}

/// The padding rule is stable under re-parsing: trimming a rendered text
/// span gives back the original trimmed span, so its first-character
/// classification — and hence its padding — never changes on a second pass.
pub proof fn lemma_padding_idempotent(raw: Seq<u8>)
    ensures
        spec_trim(spec_pad_text(raw)) == spec_trim(raw),
        text_class(spec_trim(spec_pad_text(raw))) == text_class(spec_trim(raw)),
        spec_pad_text(spec_pad_text(raw)) == spec_pad_text(spec_trim(raw)),
{
    let t = spec_trim(raw);
    lemma_trim_is_trimmed(raw);
    if t.len() == 0 {
        lemma_trim_empty();
    } else {
        lemma_trim_of_trimmed(t);
        if is_upper(t[0]) || t[0] == 46 || t[0] == 58 {
            lemma_trim_trailing_space(t);
        } else if is_lower(t[0]) {
            lemma_trim_both_spaces(t);
        }
    }
}

/// An element text that a matrix literal can carry: nonempty, and free of
/// whitespace, commas and brackets.
pub open spec fn plain_elem(e: Seq<u8>) -> bool {
    e.len() > 0 && (forall|k: int|
        0 <= k < e.len() ==> (!is_ws(e[k]) && e[k] != 44 && e[k] != 91 && e[k] != 93))
}

/// Rows whose every element a matrix literal can carry.
pub open spec fn plain_rows(rows: Seq<Seq<Seq<u8>>>) -> bool {
    forall|r: int|
        0 <= r < rows.len() ==> (#[trigger] rows[r]).len() > 0 && (forall|c: int|
            0 <= c < rows[r].len() ==> plain_elem(#[trigger] rows[r][c]))
}

/// One bracketed row: elements joined by commas.
pub open spec fn fmt_row(row: Seq<Seq<u8>>) -> Seq<u8> {
    seq![91u8] + crate::parser::spec_join(row, seq![44u8]) + seq![93u8]
}

/// The rows of the single-line form, packed back to back.
pub open spec fn fmt_rows_single(rows: Seq<Seq<Seq<u8>>>) -> Seq<u8>
    decreases rows.len(),
{
    if rows.len() == 0 {
        Seq::<u8>::empty()
    } else {
        fmt_row(rows[0]) + fmt_rows_single(rows.drop_first())
    }
}

/// The single-line surface form: `[[a,b][c,d]]`.
pub open spec fn fmt_matrix_single(rows: Seq<Seq<Seq<u8>>>) -> Seq<u8> {
    seq![91u8] + fmt_rows_single(rows) + seq![93u8]
}

/// The rows of the multi-line form, each on its own line.
pub open spec fn fmt_rows_multi(rows: Seq<Seq<Seq<u8>>>) -> Seq<u8>
    decreases rows.len(),
{
    if rows.len() == 0 {
        Seq::<u8>::empty()
    } else {
        seq![10u8] + fmt_row(rows[0]) + fmt_rows_multi(rows.drop_first())
    }
}

/// The multi-line surface form: each row on its own line inside the outer
/// brackets.
pub open spec fn fmt_matrix_multi(rows: Seq<Seq<Seq<u8>>>) -> Seq<u8> {
    seq![91u8] + fmt_rows_multi(rows) + seq![10u8] + seq![93u8]
}

proof fn lemma_find_elem_end_at(s: Seq<u8>, i: int, j: int)
    requires
        0 <= i <= j < s.len(),
        forall|k: int| i <= k < j ==> (s[k] != 44 && s[k] != 93),
        s[j] == 44 || s[j] == 93,
    ensures
        crate::grammar::find_elem_end(s, i) == j,
    decreases j - i,
{
    if i == j {
    } else {
        lemma_find_elem_end_at(s, i + 1, j);
    }
}

proof fn lemma_row_elems_enc(s: Seq<u8>, i: int, row: Seq<Seq<u8>>, acc: Seq<Seq<u8>>)
    requires
        0 <= i,
        i + crate::parser::spec_join(row, seq![44u8]).len() < s.len(),
        s.subrange(i, i + crate::parser::spec_join(row, seq![44u8]).len())
            == crate::parser::spec_join(row, seq![44u8]),
        s[i + crate::parser::spec_join(row, seq![44u8]).len()] == 93,
        forall|c: int| 0 <= c < row.len() ==> plain_elem(#[trigger] row[c]),
        acc.len() == 0 || row.len() >= 1,
    ensures
        crate::grammar::spec_row_elems(s, i, acc) == Ok::<(Seq<Seq<u8>>, int), int>(
            (acc + row, i + crate::parser::spec_join(row, seq![44u8]).len() + 1),
        ),
    decreases row.len(),
{
    let inner = crate::parser::spec_join(row, seq![44u8]);
    let m = i + inner.len();
    if row.len() == 0 {
        assert(inner.len() == 0);
        assert(s[i] == 93);
        lemma_find_elem_end_at(s, i, i);
        assert(crate::grammar::find_elem_end(s, i) == i);
        assert(s.subrange(i, i) =~= Seq::<u8>::empty());
        lemma_trim_empty();
        assert(crate::grammar::spec_row_elems(s, i, acc) == Ok::<(Seq<Seq<u8>>, int), int>(
            (acc, i + 1),
        ));
        assert(acc + row =~= acc);
    } else if row.len() == 1 {
        let e0 = row[0];
        assert(inner == e0);
        assert forall|k: int| i <= k < m implies (s[k] != 44 && s[k] != 93) by {
            assert(s.subrange(i, m)[k - i] == s[k]);
            assert(inner[k - i] == e0[k - i]);
        }
        lemma_find_elem_end_at(s, i, m);
        assert(s.subrange(i, m) =~= e0);
        assert(!is_ws(e0[0]) && !is_ws(e0[e0.len() - 1]));
        lemma_trim_of_trimmed(e0);
        assert(crate::grammar::spec_row_elems(s, i, acc) == Ok::<(Seq<Seq<u8>>, int), int>(
            (acc.push(e0), m + 1),
        ));
        assert(acc + row =~= acc.push(e0));
    } else {
        let e0 = row[0];
        let rest = row.drop_first();
        let rest_inner = crate::parser::spec_join(rest, seq![44u8]);
        assert(inner == e0 + seq![44u8] + rest_inner);
        let q = i + e0.len();
        assert(s[q] == 44) by {
            assert(s.subrange(i, m)[e0.len() as int] == s[q]);
            assert(inner[e0.len() as int] == 44);
        }
        assert forall|k: int| i <= k < q implies (s[k] != 44 && s[k] != 93) by {
            assert(s.subrange(i, m)[k - i] == s[k]);
            assert(inner[k - i] == e0[k - i]);
        }
        lemma_find_elem_end_at(s, i, q);
        assert(s.subrange(i, q) =~= e0) by {
            assert forall|k: int| 0 <= k < e0.len() implies s.subrange(i, q)[k] == e0[k] by {
                assert(s.subrange(i, m)[k] == s[i + k]);
                assert(inner[k] == e0[k]);
            }
        }
        assert(!is_ws(e0[0]) && !is_ws(e0[e0.len() - 1]));
        lemma_trim_of_trimmed(e0);
        assert(s.subrange(q + 1, q + 1 + rest_inner.len()) =~= rest_inner) by {
            assert forall|k: int| 0 <= k < rest_inner.len() implies s.subrange(
                q + 1,
                q + 1 + rest_inner.len(),
            )[k] == rest_inner[k] by {
                assert(s.subrange(i, m)[e0.len() + 1 + k] == s[q + 1 + k]);
                assert(inner[e0.len() + 1 + k] == rest_inner[k]);
            }
        }
        assert(q + 1 + rest_inner.len() == m);
        assert forall|c: int| 0 <= c < rest.len() implies plain_elem(#[trigger] rest[c]) by {
            assert(rest[c] == row[c + 1]);
        }
        lemma_row_elems_enc(s, q + 1, rest, acc.push(e0));
        assert(crate::grammar::spec_row_elems(s, i, acc) == crate::grammar::spec_row_elems(
            s,
            q + 1,
            acc.push(e0),
        ));
        assert(acc.push(e0) + rest =~= acc + row);
    }
}

proof fn lemma_matrix_rows_enc_single(
    s: Seq<u8>,
    i: int,
    rows: Seq<Seq<Seq<u8>>>,
    acc: Seq<Seq<Seq<u8>>>,
)
    requires
        0 <= i,
        i + fmt_rows_single(rows).len() < s.len(),
        s.subrange(i, i + fmt_rows_single(rows).len()) == fmt_rows_single(rows),
        s[i + fmt_rows_single(rows).len()] == 93,
        plain_rows(rows),
    ensures
        crate::grammar::spec_matrix_rows(s, i, acc) == Ok::<(Seq<Seq<Seq<u8>>>, int), int>(
            (acc + rows, i + fmt_rows_single(rows).len() + 1),
        ),
    decreases rows.len(),
{
    let enc = fmt_rows_single(rows);
    let m = i + enc.len();
    if rows.len() == 0 {
        assert(s[i] == 93);
        assert(crate::util::ws_run(s, i) == 0);
        assert(crate::grammar::spec_matrix_rows(s, i, acc) == Ok::<
            (Seq<Seq<Seq<u8>>>, int),
            int,
        >((acc, i + 1)));
        assert(acc + rows =~= acc);
    } else {
        let r0 = rows[0];
        let rest = rows.drop_first();
        let fr = fmt_row(r0);
        let inner = crate::parser::spec_join(r0, seq![44u8]);
        assert(enc == fr + fmt_rows_single(rest));
        assert(fr == seq![91u8] + inner + seq![93u8]);
        assert(s[i] == 91) by {
            assert(s.subrange(i, m)[0] == s[i]);
            assert(enc[0] == fr[0]);
            assert(fr[0] == 91);
        }
        assert(crate::util::ws_run(s, i) == 0);
        assert(s.subrange(i + 1, i + 1 + inner.len()) =~= inner) by {
            assert forall|k: int| 0 <= k < inner.len() implies s.subrange(
                i + 1,
                i + 1 + inner.len(),
            )[k] == inner[k] by {
                assert(s.subrange(i, m)[1 + k] == s[i + 1 + k]);
                assert(enc[1 + k] == fr[1 + k]);
                assert(fr[1 + k] == inner[k]);
            }
        }
        assert(s[i + 1 + inner.len()] == 93) by {
            assert(s.subrange(i, m)[1 + inner.len() as int] == s[i + 1 + inner.len()]);
            assert(enc[1 + inner.len() as int] == fr[1 + inner.len() as int]);
            assert(fr[1 + inner.len() as int] == 93);
        }
        assert(forall|c: int| 0 <= c < r0.len() ==> plain_elem(#[trigger] r0[c]));
        lemma_row_elems_enc(s, i + 1, r0, Seq::<Seq<u8>>::empty());
        let p = i + 1 + inner.len() + 1;
        assert(crate::grammar::spec_row_elems(s, i + 1, Seq::<Seq<u8>>::empty()) == Ok::<
            (Seq<Seq<u8>>, int),
            int,
        >((r0, p))) by {
            assert(Seq::<Seq<u8>>::empty() + r0 =~= r0);
        }
        assert(crate::grammar::pos_after(i + 1, p) == p);
        assert(p == i + fr.len());
        assert(s.subrange(p, p + fmt_rows_single(rest).len()) =~= fmt_rows_single(rest)) by {
            assert forall|k: int| 0 <= k < fmt_rows_single(rest).len() implies s.subrange(
                p,
                p + fmt_rows_single(rest).len(),
            )[k] == fmt_rows_single(rest)[k] by {
                assert(s.subrange(i, m)[fr.len() + k] == s[p + k]);
                assert(enc[fr.len() + k] == fmt_rows_single(rest)[k]);
            }
        }
        assert(p + fmt_rows_single(rest).len() == m);
        assert(plain_rows(rest)) by {
            assert(forall|r: int| 0 <= r < rest.len() ==> rest[r] == rows[r + 1]);
        }
        lemma_matrix_rows_enc_single(s, p, rest, acc.push(r0));
        assert(crate::grammar::spec_matrix_rows(s, i, acc) == crate::grammar::spec_matrix_rows(
            s,
            p,
            acc.push(r0),
        ));
        assert(acc.push(r0) + rest =~= acc + rows);
    }
}

proof fn lemma_matrix_rows_enc_multi(
    s: Seq<u8>,
    i: int,
    rows: Seq<Seq<Seq<u8>>>,
    acc: Seq<Seq<Seq<u8>>>,
)
    requires
        0 <= i,
        i + fmt_rows_multi(rows).len() + 1 < s.len(),
        s.subrange(i, i + fmt_rows_multi(rows).len()) == fmt_rows_multi(rows),
        s[i + fmt_rows_multi(rows).len()] == 10,
        s[i + fmt_rows_multi(rows).len() + 1] == 93,
        plain_rows(rows),
    ensures
        crate::grammar::spec_matrix_rows(s, i, acc) == Ok::<(Seq<Seq<Seq<u8>>>, int), int>(
            (acc + rows, i + fmt_rows_multi(rows).len() + 2),
        ),
    decreases rows.len(),
{
    let enc = fmt_rows_multi(rows);
    let m = i + enc.len();
    if rows.len() == 0 {
        assert(s[i] == 10);
        assert(s[i + 1] == 93);
        assert(crate::util::ws_run(s, i + 1) == 0);
        assert(crate::util::ws_run(s, i) == 1);
        assert(crate::grammar::spec_matrix_rows(s, i, acc) == Ok::<
            (Seq<Seq<Seq<u8>>>, int),
            int,
        >((acc, i + 2)));
        assert(acc + rows =~= acc);
    } else {
        let r0 = rows[0];
        let rest = rows.drop_first();
        let fr = fmt_row(r0);
        let inner = crate::parser::spec_join(r0, seq![44u8]);
        assert(enc == seq![10u8] + fr + fmt_rows_multi(rest));
        assert(fr == seq![91u8] + inner + seq![93u8]);
        assert(s[i] == 10) by {
            assert(s.subrange(i, m)[0] == s[i]);
            assert(enc[0] == 10);
        }
        assert(s[i + 1] == 91) by {
            assert(s.subrange(i, m)[1] == s[i + 1]);
            assert(enc[1] == fr[0]);
            assert(fr[0] == 91);
        }
        assert(crate::util::ws_run(s, i + 1) == 0);
        assert(crate::util::ws_run(s, i) == 1);
        assert(s.subrange(i + 2, i + 2 + inner.len()) =~= inner) by {
            assert forall|k: int| 0 <= k < inner.len() implies s.subrange(
                i + 2,
                i + 2 + inner.len(),
            )[k] == inner[k] by {
                assert(s.subrange(i, m)[2 + k] == s[i + 2 + k]);
                assert(enc[2 + k] == fr[1 + k]);
                assert(fr[1 + k] == inner[k]);
            }
        }
        assert(s[i + 2 + inner.len()] == 93) by {
            assert(s.subrange(i, m)[2 + inner.len() as int] == s[i + 2 + inner.len()]);
            assert(enc[2 + inner.len() as int] == fr[1 + inner.len() as int]);
            assert(fr[1 + inner.len() as int] == 93);
        }
        assert(forall|c: int| 0 <= c < r0.len() ==> plain_elem(#[trigger] r0[c]));
        lemma_row_elems_enc(s, i + 2, r0, Seq::<Seq<u8>>::empty());
        let p = i + 2 + inner.len() + 1;
        assert(crate::grammar::spec_row_elems(s, i + 2, Seq::<Seq<u8>>::empty()) == Ok::<
            (Seq<Seq<u8>>, int),
            int,
        >((r0, p))) by {
            assert(Seq::<Seq<u8>>::empty() + r0 =~= r0);
        }
        assert(crate::grammar::pos_after(i + 2, p) == p);
        assert(p == i + 1 + fr.len());
        assert(s.subrange(p, p + fmt_rows_multi(rest).len()) =~= fmt_rows_multi(rest)) by {
            assert forall|k: int| 0 <= k < fmt_rows_multi(rest).len() implies s.subrange(
                p,
                p + fmt_rows_multi(rest).len(),
            )[k] == fmt_rows_multi(rest)[k] by {
                assert(s.subrange(i, m)[1 + fr.len() + k] == s[p + k]);
                assert(enc[1 + fr.len() + k] == fmt_rows_multi(rest)[k]);
            }
        }
        assert(p + fmt_rows_multi(rest).len() == m);
        assert(plain_rows(rest)) by {
            assert(forall|r: int| 0 <= r < rest.len() ==> rest[r] == rows[r + 1]);
        }
        lemma_matrix_rows_enc_multi(s, p, rest, acc.push(r0));
        assert(crate::grammar::spec_matrix_rows(s, i, acc) == crate::grammar::spec_matrix_rows(
            s,
            p,
            acc.push(r0),
        ));
        assert(acc.push(r0) + rest =~= acc + rows);
    }
}

/// The two surface syntaxes of a matrix literal agree: for any rows whose
/// elements a literal can carry, the single-line bracket form and the
/// multi-line form both parse back to exactly those rows.
pub proof fn lemma_matrix_forms_agree(rows: Seq<Seq<Seq<u8>>>)
    requires
        plain_rows(rows),
    ensures
        crate::grammar::spec_parse_matrix(fmt_matrix_single(rows), 0) == Ok::<
            (Seq<Seq<Seq<u8>>>, int),
            int,
        >((rows, fmt_matrix_single(rows).len() as int)),
        crate::grammar::spec_parse_matrix(fmt_matrix_multi(rows), 0) == Ok::<
            (Seq<Seq<Seq<u8>>>, int),
            int,
        >((rows, fmt_matrix_multi(rows).len() as int)),
{
    let ss = fmt_matrix_single(rows);
    assert(ss[0] == 91);
    assert(ss.subrange(1, 1 + fmt_rows_single(rows).len() as int) =~= fmt_rows_single(rows));
    assert(ss[1 + fmt_rows_single(rows).len() as int] == 93);
    lemma_matrix_rows_enc_single(ss, 1, rows, Seq::<Seq<Seq<u8>>>::empty());
    assert(Seq::<Seq<Seq<u8>>>::empty() + rows =~= rows);
    assert(crate::grammar::spec_parse_matrix(ss, 0) == crate::grammar::spec_matrix_rows(
        ss,
        1,
        Seq::<Seq<Seq<u8>>>::empty(),
    ));
    assert(1 + fmt_rows_single(rows).len() + 1 == ss.len());

    let sm = fmt_matrix_multi(rows);
    assert(sm[0] == 91);
    assert(sm.subrange(1, 1 + fmt_rows_multi(rows).len() as int) =~= fmt_rows_multi(rows));
    assert(sm[1 + fmt_rows_multi(rows).len() as int] == 10);
    assert(sm[1 + fmt_rows_multi(rows).len() as int + 1] == 93);
    lemma_matrix_rows_enc_multi(sm, 1, rows, Seq::<Seq<Seq<u8>>>::empty());
    assert(crate::grammar::spec_parse_matrix(sm, 0) == crate::grammar::spec_matrix_rows(
        sm,
        1,
        Seq::<Seq<Seq<u8>>>::empty(),
    ));
    assert(1 + fmt_rows_multi(rows).len() + 2 == sm.len());
}

} // verus!

//! The basic document template: document class, the math package, title,
//! authors, and the opening of the document environment.

use vstd::prelude::*;

use crate::lit::{
    author_open_bytes, begin_document_line_bytes, close_brace_nl_bytes, comma_space_bytes,
    documentclass_open_bytes, title_open_bytes, usepackage_amsmath_bytes,
};
use crate::parser::{join_from, spec_preamble};
use crate::state::{LatexState, SpecState};

verus! {

/// Append the fixed preamble: `\documentclass{...}`, the `amsmath` package,
/// `\title{...}`, `\author{...}` with the authors joined by commas, and
/// `\begin{document}`.
pub fn basic_template(latex_state: &mut LatexState)
    ensures
        final(latex_state)@ == (SpecState {
            body: old(latex_state)@.body + spec_preamble(old(latex_state)@),
            ..old(latex_state)@
        }),
{
    let class = vstd::slice::slice_to_vec(latex_state.setup.document_class.as_slice());
    let title = vstd::slice::slice_to_vec(latex_state.document.title.as_slice());
    let sep = comma_space_bytes();
    let authors = join_from(&latex_state.document.author, 0, sep.as_slice());
    latex_state.append_to_body(documentclass_open_bytes());
    latex_state.append_to_body(class);
    latex_state.append_to_body(close_brace_nl_bytes());
    latex_state.append_to_body(usepackage_amsmath_bytes());
    latex_state.append_to_body(title_open_bytes());
    latex_state.append_to_body(title);
    latex_state.append_to_body(close_brace_nl_bytes());
    latex_state.append_to_body(author_open_bytes());
    latex_state.append_to_body(authors);
    latex_state.append_to_body(close_brace_nl_bytes());
    latex_state.append_to_body(begin_document_line_bytes());
    proof {
        assert(latex_state.document.author.deep_view().skip(0)
            =~= old(latex_state)@.authors);
        assert(latex_state@.body =~= old(latex_state)@.body + spec_preamble(old(latex_state)@));
        assert(latex_state@ =~~= (SpecState {
            body: old(latex_state)@.body + spec_preamble(old(latex_state)@),
            ..old(latex_state)@
        }));
    }
}

} // verus!

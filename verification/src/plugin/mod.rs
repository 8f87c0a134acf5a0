//! The document-template collaborator: it turns the gathered metadata into
//! the fixed preamble that precedes the rendered document body.

use vstd::prelude::*;

pub mod template;

use crate::parser::spec_preamble;
use crate::state::{LatexState, SpecState};

verus! {

/// Prepend the preamble for the gathered metadata to the output buffer.
pub fn build_preamble(latex_state: &mut LatexState)
    ensures
        final(latex_state)@ == (SpecState {
            body: old(latex_state)@.body + spec_preamble(old(latex_state)@),
            ..old(latex_state)@
        }),
{
    template::basic_template(latex_state)
}

} // verus!

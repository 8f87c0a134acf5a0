//! A compiler for a lightweight markup language: a `setup` section declares
//! document metadata, matrices and variables (optionally through an embedded
//! scripting engine), and a `document` section mixes prose with inline math,
//! block math and code interpolation. The compiler renders the whole input
//! into typeset-document markup.

use vstd::prelude::*;

pub mod ast;
pub mod document;
pub mod engine;
pub mod grammar;
pub mod kw;
pub mod laws;
pub mod lit;
pub mod parser;
pub mod plugin;
pub mod state;
pub mod tokeniser;
pub mod util;

pub use document::Document;
pub use engine::{Engine, PyEngine};
pub use parser::{
    extract_string_content, get_matrix_elements, parse_document_block, parse_setup_block,
    parse_to_latex, parse_to_latex_internal, parse_to_latex_with, process_code, process_maths,
    LatexError,
};
pub use plugin::build_preamble;
pub use plugin::template::basic_template;
pub use state::{DocumentBlock, Function, LatexState, Matrix, SetupBlock};
pub use tokeniser::{get_alphanumeric, get_block_name, get_numeric, tokenise, Token};
pub use util::trim_bytes;

verus! {

} // verus!

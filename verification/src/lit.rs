//! The fixed output fragments of the renderer, as byte sequences, with
//! executable producers proved against them.

use vstd::prelude::*;

verus! {

/// `\\documentclass{`
pub open spec fn lit_documentclass_open() -> Seq<u8> {
    seq![92u8, 100, 111, 99, 117, 109, 101, 110, 116, 99, 108, 97, 115, 115, 123]
}

pub fn documentclass_open_bytes() -> (r: Vec<u8>)
    ensures
        r@ == lit_documentclass_open(),
{
    let a: [u8; 15] = [92, 100, 111, 99, 117, 109, 101, 110, 116, 99, 108, 97, 115, 115, 123];
    let r = vstd::slice::slice_to_vec(a.as_slice());
    proof {
        assert(a@ =~= lit_documentclass_open());
    }
    r
}

/// `\\usepackage{amsmath}\n`
pub open spec fn lit_usepackage_amsmath() -> Seq<u8> {
    seq![92u8, 117, 115, 101, 112, 97, 99, 107, 97, 103, 101, 123, 97, 109, 115, 109, 97, 116, 104, 125, 10]
}

pub fn usepackage_amsmath_bytes() -> (r: Vec<u8>)
    ensures
        r@ == lit_usepackage_amsmath(),
{
    let a: [u8; 21] = [92, 117, 115, 101, 112, 97, 99, 107, 97, 103, 101, 123, 97, 109, 115, 109, 97, 116, 104, 125, 10];
    let r = vstd::slice::slice_to_vec(a.as_slice());
    proof {
        assert(a@ =~= lit_usepackage_amsmath());
    }
    r
}

/// `\\title{`
pub open spec fn lit_title_open() -> Seq<u8> {
    seq![92u8, 116, 105, 116, 108, 101, 123]
}

pub fn title_open_bytes() -> (r: Vec<u8>)
    ensures
        r@ == lit_title_open(),
{
    let a: [u8; 7] = [92, 116, 105, 116, 108, 101, 123];
    let r = vstd::slice::slice_to_vec(a.as_slice());
    proof {
        assert(a@ =~= lit_title_open());
    }
    r
}

/// `\\author{`
pub open spec fn lit_author_open() -> Seq<u8> {
    seq![92u8, 97, 117, 116, 104, 111, 114, 123]
}

pub fn author_open_bytes() -> (r: Vec<u8>)
    ensures
        r@ == lit_author_open(),
{
    let a: [u8; 8] = [92, 97, 117, 116, 104, 111, 114, 123];
    let r = vstd::slice::slice_to_vec(a.as_slice());
    proof {
        assert(a@ =~= lit_author_open());
    }
    r
}

/// `}\n`
pub open spec fn lit_close_brace_nl() -> Seq<u8> {
    seq![125u8, 10]
}

pub fn close_brace_nl_bytes() -> (r: Vec<u8>)
    ensures
        r@ == lit_close_brace_nl(),
{
    let a: [u8; 2] = [125, 10];
    let r = vstd::slice::slice_to_vec(a.as_slice());
    proof {
        assert(a@ =~= lit_close_brace_nl());
    }
    r
}

/// `\\begin{document}\n`
pub open spec fn lit_begin_document_line() -> Seq<u8> {
    seq![92u8, 98, 101, 103, 105, 110, 123, 100, 111, 99, 117, 109, 101, 110, 116, 125, 10]
}

pub fn begin_document_line_bytes() -> (r: Vec<u8>)
    ensures
        r@ == lit_begin_document_line(),
{
    let a: [u8; 17] = [92, 98, 101, 103, 105, 110, 123, 100, 111, 99, 117, 109, 101, 110, 116, 125, 10];
    let r = vstd::slice::slice_to_vec(a.as_slice());
    proof {
        assert(a@ =~= lit_begin_document_line());
    }
    r
}

/// `\\end{document}\n`
pub open spec fn lit_end_document_line() -> Seq<u8> {
    seq![92u8, 101, 110, 100, 123, 100, 111, 99, 117, 109, 101, 110, 116, 125, 10]
}

pub fn end_document_line_bytes() -> (r: Vec<u8>)
    ensures
        r@ == lit_end_document_line(),
{
    let a: [u8; 15] = [92, 101, 110, 100, 123, 100, 111, 99, 117, 109, 101, 110, 116, 125, 10];
    let r = vstd::slice::slice_to_vec(a.as_slice());
    proof {
        assert(a@ =~= lit_end_document_line());
    }
    r
}

/// `\\begin{equation}\n`
pub open spec fn lit_begin_equation_line() -> Seq<u8> {
    seq![92u8, 98, 101, 103, 105, 110, 123, 101, 113, 117, 97, 116, 105, 111, 110, 125, 10]
}

pub fn begin_equation_line_bytes() -> (r: Vec<u8>)
    ensures
        r@ == lit_begin_equation_line(),
{
    let a: [u8; 17] = [92, 98, 101, 103, 105, 110, 123, 101, 113, 117, 97, 116, 105, 111, 110, 125, 10];
    let r = vstd::slice::slice_to_vec(a.as_slice());
    proof {
        assert(a@ =~= lit_begin_equation_line());
    }
    r
}

/// `\\begin{pmatrix}\n`
pub open spec fn lit_begin_pmatrix_line() -> Seq<u8> {
    seq![92u8, 98, 101, 103, 105, 110, 123, 112, 109, 97, 116, 114, 105, 120, 125, 10]
}

pub fn begin_pmatrix_line_bytes() -> (r: Vec<u8>)
    ensures
        r@ == lit_begin_pmatrix_line(),
{
    let a: [u8; 16] = [92, 98, 101, 103, 105, 110, 123, 112, 109, 97, 116, 114, 105, 120, 125, 10];
    let r = vstd::slice::slice_to_vec(a.as_slice());
    proof {
        assert(a@ =~= lit_begin_pmatrix_line());
    }
    r
}

/// `\\end{pmatrix}\n`
pub open spec fn lit_end_pmatrix_line() -> Seq<u8> {
    seq![92u8, 101, 110, 100, 123, 112, 109, 97, 116, 114, 105, 120, 125, 10]
}

pub fn end_pmatrix_line_bytes() -> (r: Vec<u8>)
    ensures
        r@ == lit_end_pmatrix_line(),
{
    let a: [u8; 14] = [92, 101, 110, 100, 123, 112, 109, 97, 116, 114, 105, 120, 125, 10];
    let r = vstd::slice::slice_to_vec(a.as_slice());
    proof {
        assert(a@ =~= lit_end_pmatrix_line());
    }
    r
}

/// `\\end{equation}\n`
pub open spec fn lit_end_equation_line() -> Seq<u8> {
    seq![92u8, 101, 110, 100, 123, 101, 113, 117, 97, 116, 105, 111, 110, 125, 10]
}

pub fn end_equation_line_bytes() -> (r: Vec<u8>)
    ensures
        r@ == lit_end_equation_line(),
{
    let a: [u8; 15] = [92, 101, 110, 100, 123, 101, 113, 117, 97, 116, 105, 111, 110, 125, 10];
    let r = vstd::slice::slice_to_vec(a.as_slice());
    proof {
        assert(a@ =~= lit_end_equation_line());
    }
    r
}

/// ` & `
pub open spec fn lit_amp_sep() -> Seq<u8> {
    seq![32u8, 38, 32]
}

pub fn amp_sep_bytes() -> (r: Vec<u8>)
    ensures
        r@ == lit_amp_sep(),
{
    let a: [u8; 3] = [32, 38, 32];
    let r = vstd::slice::slice_to_vec(a.as_slice());
    proof {
        assert(a@ =~= lit_amp_sep());
    }
    r
}

/// ` \\\\\n`
pub open spec fn lit_row_end() -> Seq<u8> {
    seq![32u8, 92, 92, 10]
}

pub fn row_end_bytes() -> (r: Vec<u8>)
    ensures
        r@ == lit_row_end(),
{
    let a: [u8; 4] = [32, 92, 92, 10];
    let r = vstd::slice::slice_to_vec(a.as_slice());
    proof {
        assert(a@ =~= lit_row_end());
    }
    r
}

/// `, `
pub open spec fn lit_comma_space() -> Seq<u8> {
    seq![44u8, 32]
}

pub fn comma_space_bytes() -> (r: Vec<u8>)
    ensures
        r@ == lit_comma_space(),
{
    let a: [u8; 2] = [44, 32];
    let r = vstd::slice::slice_to_vec(a.as_slice());
    proof {
        assert(a@ =~= lit_comma_space());
    }
    r
}

/// `Error: `
pub open spec fn lit_error_prefix() -> Seq<u8> {
    seq![69u8, 114, 114, 111, 114, 58, 32]
}

pub fn error_prefix_bytes() -> (r: Vec<u8>)
    ensures
        r@ == lit_error_prefix(),
{
    let a: [u8; 7] = [69, 114, 114, 111, 114, 58, 32];
    let r = vstd::slice::slice_to_vec(a.as_slice());
    proof {
        assert(a@ =~= lit_error_prefix());
    }
    r
}

/// `\\frac{`
pub open spec fn lit_frac_open() -> Seq<u8> {
    seq![92u8, 102, 114, 97, 99, 123]
}

pub fn frac_open_bytes() -> (r: Vec<u8>)
    ensures
        r@ == lit_frac_open(),
{
    let a: [u8; 6] = [92, 102, 114, 97, 99, 123];
    let r = vstd::slice::slice_to_vec(a.as_slice());
    proof {
        assert(a@ =~= lit_frac_open());
    }
    r
}

/// `}{`
pub open spec fn lit_frac_mid() -> Seq<u8> {
    seq![125u8, 123]
}

pub fn frac_mid_bytes() -> (r: Vec<u8>)
    ensures
        r@ == lit_frac_mid(),
{
    let a: [u8; 2] = [125, 123];
    let r = vstd::slice::slice_to_vec(a.as_slice());
    proof {
        assert(a@ =~= lit_frac_mid());
    }
    r
}

/// `/`
pub open spec fn lit_slash() -> Seq<u8> {
    seq![47u8]
}

pub fn slash_bytes() -> (r: Vec<u8>)
    ensures
        r@ == lit_slash(),
{
    let a: [u8; 1] = [47];
    let r = vstd::slice::slice_to_vec(a.as_slice());
    proof {
        assert(a@ =~= lit_slash());
    }
    r
}

/// ` is not defined`
pub open spec fn lit_is_not_defined() -> Seq<u8> {
    seq![32u8, 105, 115, 32, 110, 111, 116, 32, 100, 101, 102, 105, 110, 101, 100]
}

pub fn is_not_defined_bytes() -> (r: Vec<u8>)
    ensures
        r@ == lit_is_not_defined(),
{
    let a: [u8; 15] = [32, 105, 115, 32, 110, 111, 116, 32, 100, 101, 102, 105, 110, 101, 100];
    let r = vstd::slice::slice_to_vec(a.as_slice());
    proof {
        assert(a@ =~= lit_is_not_defined());
    }
    r
}

/// `matrix `
pub open spec fn lit_matrix_word() -> Seq<u8> {
    seq![109u8, 97, 116, 114, 105, 120, 32]
}

pub fn matrix_word_bytes() -> (r: Vec<u8>)
    ensures
        r@ == lit_matrix_word(),
{
    let a: [u8; 7] = [109, 97, 116, 114, 105, 120, 32];
    let r = vstd::slice::slice_to_vec(a.as_slice());
    proof {
        assert(a@ =~= lit_matrix_word());
    }
    r
}

/// ` $`
pub open spec fn lit_space_dollar() -> Seq<u8> {
    seq![32u8, 36]
}

pub fn space_dollar_bytes() -> (r: Vec<u8>)
    ensures
        r@ == lit_space_dollar(),
{
    let a: [u8; 2] = [32, 36];
    let r = vstd::slice::slice_to_vec(a.as_slice());
    proof {
        assert(a@ =~= lit_space_dollar());
    }
    r
}

/// `$`
pub open spec fn lit_dollar() -> Seq<u8> {
    seq![36u8]
}

pub fn dollar_bytes() -> (r: Vec<u8>)
    ensures
        r@ == lit_dollar(),
{
    let a: [u8; 1] = [36];
    let r = vstd::slice::slice_to_vec(a.as_slice());
    proof {
        assert(a@ =~= lit_dollar());
    }
    r
}

/// `\n$$`
pub open spec fn lit_nl_dollar2() -> Seq<u8> {
    seq![10u8, 36, 36]
}

pub fn nl_dollar2_bytes() -> (r: Vec<u8>)
    ensures
        r@ == lit_nl_dollar2(),
{
    let a: [u8; 3] = [10, 36, 36];
    let r = vstd::slice::slice_to_vec(a.as_slice());
    proof {
        assert(a@ =~= lit_nl_dollar2());
    }
    r
}

/// `$$\n`
pub open spec fn lit_dollar2_nl() -> Seq<u8> {
    seq![36u8, 36, 10]
}

pub fn dollar2_nl_bytes() -> (r: Vec<u8>)
    ensures
        r@ == lit_dollar2_nl(),
{
    let a: [u8; 3] = [36, 36, 10];
    let r = vstd::slice::slice_to_vec(a.as_slice());
    proof {
        assert(a@ =~= lit_dollar2_nl());
    }
    r
}

/// `variable `
pub open spec fn lit_variable_word() -> Seq<u8> {
    seq![118u8, 97, 114, 105, 97, 98, 108, 101, 32]
}

pub fn variable_word_bytes() -> (r: Vec<u8>)
    ensures
        r@ == lit_variable_word(),
{
    let a: [u8; 9] = [118, 97, 114, 105, 97, 98, 108, 101, 32];
    let r = vstd::slice::slice_to_vec(a.as_slice());
    proof {
        assert(a@ =~= lit_variable_word());
    }
    r
}

/// ` is not a matrix`
pub open spec fn lit_is_not_a_matrix() -> Seq<u8> {
    seq![32u8, 105, 115, 32, 110, 111, 116, 32, 97, 32, 109, 97, 116, 114, 105, 120]
}

pub fn is_not_a_matrix_bytes() -> (r: Vec<u8>)
    ensures
        r@ == lit_is_not_a_matrix(),
{
    let a: [u8; 16] = [32, 105, 115, 32, 110, 111, 116, 32, 97, 32, 109, 97, 116, 114, 105, 120];
    let r = vstd::slice::slice_to_vec(a.as_slice());
    proof {
        assert(a@ =~= lit_is_not_a_matrix());
    }
    r
}

} // verus!
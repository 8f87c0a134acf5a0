use demoparser::{extract_string_content, parse_to_latex_internal, trim_bytes, LatexError};

fn compile(input: &str) -> String {
    let out = parse_to_latex_internal(input.as_bytes()).expect("compile failed");
    String::from_utf8(out).expect("output is utf-8")
}

#[test]
fn extracts_double_quoted_content() {
    let r = extract_string_content(b"documentclass(\"article\")");
    assert_eq!(r, Some(b"article".to_vec()));
}

#[test]
fn extracts_single_quoted_content() {
    let r = extract_string_content(b"documentclass('article')");
    assert_eq!(r, Some(b"article".to_vec()));
}

#[test]
fn extracts_empty_quoted_content() {
    let r = extract_string_content(b"documentclass('')");
    assert_eq!(r, Some(b"".to_vec()));
}

#[test]
fn extracts_nothing_without_quotes() {
    let r = extract_string_content(b"documentclass()");
    assert_eq!(r, None);
}

#[test]
fn empty_document_is_preamble_and_terminator() {
    let out = compile(
        "begin(setup)\ndocumentclass(\"article\")\nend(setup)\nbegin(document)end(document)",
    );
    assert_eq!(
        out,
        "\\documentclass{article}\n\\usepackage{amsmath}\n\\title{}\n\\author{}\n\\begin{document}\n\\end{document}\n"
    );
    assert!(out.ends_with("\\end{document}\n"));
}

#[test]
fn matrix_literal_renders_as_pmatrix() {
    let out = compile(
        "begin(setup)\nA = [[1,2,3][4,5,6]]\nend(setup)\nbegin(document)\n$$(matrix A)\nend(document)",
    );
    assert!(out.contains("\\begin{pmatrix}\n1 & 2 & 3 \\\\\n4 & 5 & 6 \\\\\n\\end{pmatrix}"));
}

#[test]
fn multiline_matrix_literal_renders_the_same() {
    let single = compile(
        "begin(setup)\nA = [[1,2,3][4,5,6]]\nend(setup)\nbegin(document)\n$$(matrix A)\nend(document)",
    );
    let multi = compile(
        "begin(setup)\nA = [\n[1,2,3]\n[4,5,6]\n]\nend(setup)\nbegin(document)\n$$(matrix A)\nend(document)",
    );
    assert_eq!(single, multi);
}

#[test]
fn inline_math_substitutes_defined_identifier() {
    let out = compile("begin(setup)\nt = 1509\nend(setup)\nbegin(document)\n$(t)\nend(document)");
    assert!(out.contains("$1509$"));
}

#[test]
fn inline_math_keeps_undefined_identifier_verbatim() {
    let out = compile("begin(setup)\nend(setup)\nbegin(document)\n$(x)\nend(document)");
    assert!(out.contains("$x$"));
}

#[test]
fn fraction_renders_two_slot_template() {
    let out = compile(
        "begin(setup)\nend(setup)\nbegin(document)\n$(fraction \\dy\\dx)\nend(document)",
    );
    assert!(out.contains("\\frac{dy}{dx}"));
}

#[test]
fn fraction_with_one_token_passes_through() {
    let out =
        compile("begin(setup)\nend(setup)\nbegin(document)\n$(fraction \\dy)\nend(document)");
    assert!(out.contains("$dy$"));
}

#[test]
fn fraction_with_three_tokens_joins_denominator() {
    let out = compile(
        "begin(setup)\nend(setup)\nbegin(document)\n$(fraction \\a\\b\\c)\nend(document)",
    );
    assert!(out.contains("\\frac{a}{b/c}"));
}

#[test]
fn undefined_code_reference_recovers_inline() {
    let out = compile(
        "begin(setup)\nend(setup)\nbegin(document)\n>(qq) The rest still renders.\nend(document)",
    );
    assert!(out.contains("Error: qq is not defined"));
    assert!(out.contains("The rest still renders."));
    assert!(out.ends_with("\\end{document}\n"));
}

#[test]
fn defined_code_reference_renders_value() {
    let out = compile(
        "begin(setup)\nname = world\nend(setup)\nbegin(document)\n>(name)\nend(document)",
    );
    assert!(out.contains("world"));
}

#[test]
fn setup_metadata_fills_the_preamble() {
    let out = compile(
        "begin(setup)\ndocumentclass(\"report\")\ntitle(\"My Doc\")\nauthor(\"Ada\")\nend(setup)\nbegin(document)Hi.end(document)",
    );
    assert!(out.starts_with("\\documentclass{report}\n"));
    assert!(out.contains("\\usepackage{amsmath}\n"));
    assert!(out.contains("\\title{My Doc}\n"));
    assert!(out.contains("\\author{Ada}\n"));
    assert!(out.contains("\\begin{document}\n"));
}

#[test]
fn two_authors_join_with_comma() {
    let out = compile(
        "begin(setup)\nauthor(\"Ada\")\nauthor(\"Alan\")\nend(setup)\nbegin(document)end(document)",
    );
    assert!(out.contains("\\author{Ada, Alan}\n"));
}

#[test]
fn sentence_text_gets_trailing_space_only() {
    let out = compile(
        "begin(setup)\nt = 2\nend(setup)\nbegin(document)The value is $(t).\nend(document)",
    );
    assert!(out.contains("The value is  $2$"));
    assert!(out.contains("$. "));
}

#[test]
fn lowercase_text_is_padded_on_both_sides() {
    let out =
        compile("begin(setup)\nend(setup)\nbegin(document)$(x)and more.end(document)");
    assert!(out.contains("$x$ and more. "));
}

#[test]
fn code_call_is_reconstructed_before_evaluation() {
    let out = compile(
        "begin(setup)\nend(setup)\nbegin(document)\n>(add( 1 ,2 ))\nend(document)",
    );
    assert!(out.contains("Error: add(1, 2) is not defined"));
}

#[test]
fn numbers_in_code_output_pass_through() {
    let out = compile("begin(setup)\nend(setup)\nbegin(document)\n>(42)\nend(document)");
    assert!(out.contains("42"));
    assert!(!out.contains("Error"));
}

#[test]
fn missing_document_terminator_is_a_syntax_error() {
    let r = parse_to_latex_internal(
        b"begin(setup)\nend(setup)\nbegin(document)\nsome text",
    );
    assert!(matches!(r, Err(LatexError::Syntax(_))));
}

#[test]
fn unknown_block_name_is_a_syntax_error() {
    let r = parse_to_latex_internal(
        b"begin(chapter)\nend(chapter)\nbegin(document)\nend(document)",
    );
    assert!(matches!(r, Err(LatexError::Syntax(_))));
}

#[test]
fn missing_setup_block_is_a_syntax_error() {
    let r = parse_to_latex_internal(b"begin(document)\nend(document)");
    assert!(matches!(r, Err(LatexError::Syntax(_))));
}

#[test]
fn unbalanced_matrix_literal_is_a_syntax_error() {
    let r = parse_to_latex_internal(
        b"begin(setup)\nA = [[1,2\nend(setup)\nbegin(document)\nend(document)",
    );
    assert!(matches!(r, Err(LatexError::Syntax(_))));
}

#[test]
fn undefined_matrix_name_recovers_inline() {
    let out = compile(
        "begin(setup)\nend(setup)\nbegin(document)\n$$(matrix B)\nend(document)",
    );
    assert!(out.contains("Error: matrix B is not defined"));
    assert!(out.ends_with("\\end{document}\n"));
}

#[test]
fn trim_removes_surrounding_whitespace() {
    assert_eq!(trim_bytes(b"  hi there \n"), b"hi there".to_vec());
    assert_eq!(trim_bytes(b"\t\n "), b"".to_vec());
}

#[test]
fn matrix_forms_parse_identically() {
    let (rows_single, _) = demoparser::grammar::parse_matrix(b"[[1,2][3,4]]", 0).unwrap();
    let (rows_multi, _) = demoparser::grammar::parse_matrix(b"[\n[1,2]\n[3,4]\n]", 0).unwrap();
    assert_eq!(rows_single, rows_multi);
    assert_eq!(rows_single, vec![
        vec![b"1".to_vec(), b"2".to_vec()],
        vec![b"3".to_vec(), b"4".to_vec()],
    ]);
}

#[test]
fn text_padding_is_stable_under_recompilation() {
    let first = compile("begin(setup)\nend(setup)\nbegin(document)hello world end(document)");
    let open_marker = "\\begin{document}\n";
    let start = first.find(open_marker).unwrap() + open_marker.len();
    let end = first.find("\\end{document}").unwrap();
    let span = &first[start..end];
    assert_eq!(span, " hello world ");
    let again = compile(&format!(
        "begin(setup)\nend(setup)\nbegin(document){}end(document)",
        span
    ));
    let start2 = again.find(open_marker).unwrap() + open_marker.len();
    let end2 = again.find("\\end{document}").unwrap();
    assert_eq!(&again[start2..end2], span);
}

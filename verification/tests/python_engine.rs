use demoparser::{parse_to_latex, LatexError};

fn compile_py(input: &str) -> String {
    let out = parse_to_latex(input.as_bytes()).expect("compile failed");
    String::from_utf8(out).expect("output is utf-8")
}

#[test]
fn python_variable_interpolates_into_text() {
    let out = compile_py(
        "begin(setup)\nbegin(python)\nt = 1509\nend(python)\nend(setup)\nbegin(document)\n>(t)\nend(document)",
    );
    assert!(out.contains("1509"));
}

#[test]
fn python_call_is_evaluated() {
    let out = compile_py(
        "begin(setup)\nbegin(python)\ndef add(a, b):\n    return a + b\nend(python)\nend(setup)\nbegin(document)\n>(add(2, 3))\nend(document)",
    );
    assert!(out.contains("5"));
}

#[test]
fn python_list_of_lists_renders_as_matrix() {
    let out = compile_py(
        "begin(setup)\nbegin(python)\nB = [[1, 2], [3, 4]]\nend(python)\nend(setup)\nbegin(document)\n$$(matrix B)\nend(document)",
    );
    assert!(out.contains("\\begin{pmatrix}\n1 & 2 \\\\\n3 & 4 \\\\\n\\end{pmatrix}"));
}

#[test]
fn python_scalar_list_renders_as_column() {
    let out = compile_py(
        "begin(setup)\nbegin(python)\nC = [7, 8]\nend(python)\nend(setup)\nbegin(document)\n$$(matrix C)\nend(document)",
    );
    assert!(out.contains("\\begin{pmatrix}\n7 \\\\\n8 \\\\\n\\end{pmatrix}"));
}

#[test]
fn python_name_error_renders_inline() {
    let out = compile_py(
        "begin(setup)\nbegin(python)\nx = 1\nend(python)\nend(setup)\nbegin(document)\n>(zz) Text goes on.\nend(document)",
    );
    assert!(out.contains("Error: "));
    assert!(out.contains("Text goes on."));
    assert!(out.ends_with("\\end{document}\n"));
}

#[test]
fn python_define_failure_aborts_compile() {
    let r = parse_to_latex(
        b"begin(setup)\nbegin(python)\nthis is not python(\nend(python)\nend(setup)\nbegin(document)\nend(document)",
    );
    assert!(matches!(r, Err(LatexError::Engine(_))));
}

#[test]
fn literal_matrix_beats_python_scope() {
    let out = compile_py(
        "begin(setup)\nA = [[9][8]]\nbegin(python)\nA = [[1, 2], [3, 4]]\nend(python)\nend(setup)\nbegin(document)\n$$(matrix A)\nend(document)",
    );
    assert!(out.contains("\\begin{pmatrix}\n9 \\\\\n8 \\\\\n\\end{pmatrix}"));
}

#[test]
fn python_non_matrix_value_gets_its_own_message() {
    let out = compile_py(
        "begin(setup)\nbegin(python)\nx = 5\nend(python)\nend(setup)\nbegin(document)\n$$(matrix x)\nend(document)",
    );
    assert!(out.contains("Error: variable x is not a matrix"));
}

#[test]
fn python_no_code_region_always_compiles() {
    let out = compile_py(
        "begin(setup)\nt = 7\nend(setup)\nbegin(document)\n$(t)\nend(document)",
    );
    assert!(out.contains("$7$"));
}

use demoparser::{tokenise, Token};

#[test]
fn test_token() {
    let input = "
        begin(setup)
        documentclass('article')
        A = [
            [a, b, c]
            [d, e, f]
        ]
        $(sum (n -> n-1) \\gx)
        end(setup)
        ";

    let tokens = tokenise(input.as_bytes());
    let expected_tokens = vec![
        Token::BeginSetup,
        Token::DocumentClass(b"article".to_vec()),
        Token::ParenthesisOpen,
        Token::Identifier(b"article".to_vec()),
        Token::ParenthesisClose,
        Token::Identifier(b"A".to_vec()),
        Token::Identifier(b"a".to_vec()),
        Token::Identifier(b"b".to_vec()),
        Token::Identifier(b"c".to_vec()),
        Token::Identifier(b"d".to_vec()),
        Token::Identifier(b"e".to_vec()),
        Token::Identifier(b"f".to_vec()),
        Token::ParenthesisOpen,
        Token::Sum,
        Token::ParenthesisOpen,
        Token::Identifier(b"n".to_vec()),
        Token::Identifier(b"n".to_vec()),
        Token::Number(b"1".to_vec()),
        Token::ParenthesisClose,
        Token::Identifier(b"gx".to_vec()),
        Token::ParenthesisClose,
        Token::EndSetup,
        Token::EndOfFile,
    ];

    assert_eq!(tokens, expected_tokens);
}

#[test]
fn tokenise_skips_unknown_blocks() {
    let tokens = tokenise(b"begin(chapter) x end(setup)");
    let expected = vec![
        Token::Identifier(b"x".to_vec()),
        Token::EndSetup,
        Token::EndOfFile,
    ];
    assert_eq!(tokens, expected);
}

#[test]
fn tokenise_keywords_without_parens_are_identifiers() {
    let tokens = tokenise(b"begin end documentclass matrix sum");
    let expected = vec![
        Token::Identifier(b"begin".to_vec()),
        Token::Identifier(b"end".to_vec()),
        Token::Identifier(b"documentclass".to_vec()),
        Token::Matrix,
        Token::Sum,
        Token::EndOfFile,
    ];
    assert_eq!(tokens, expected);
}

#[test]
fn numeric_runs_keep_dots() {
    let (num, end) = demoparser::get_numeric(b"12.5x", 0);
    assert_eq!(num, b"12.5".to_vec());
    assert_eq!(end, 4);
}

#[test]
fn alphanumeric_runs_stop_at_symbols() {
    let (word, end) = demoparser::get_alphanumeric(b"ab3+q", 0);
    assert_eq!(word, b"ab3".to_vec());
    assert_eq!(end, 3);
}

#[test]
fn block_names_skip_stray_parens_and_spaces() {
    let (name, end) = demoparser::get_block_name(b"( ( setup ) rest", 0);
    assert_eq!(name, b"setup".to_vec());
    assert_eq!(end, 11);
    let _ = end;
}

#[test]
fn document_class_token_carries_the_written_class() {
    let tokens = tokenise(b"documentclass(\"report\")");
    assert_eq!(tokens[0], Token::DocumentClass(b"report".to_vec()));
}

#[test]
fn document_class_token_is_empty_without_quotes() {
    let tokens = tokenise(b"documentclass()");
    assert_eq!(tokens[0], Token::DocumentClass(b"".to_vec()));
}

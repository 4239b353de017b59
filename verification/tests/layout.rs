use offside::lexer::{lex, Lexer};
use offside::token::{LexError, Token};

#[test]
fn end_to_end_example() {
    let tokens = lex("0\n  2\n  2\n    4\n  2").unwrap();

    assert_eq!(
        tokens,
        vec![
            Token::Number("0"),
            Token::Indent,
            Token::Number("2"),
            Token::Number("2"),
            Token::Indent,
            Token::Number("4"),
            Token::Dedent,
            Token::Number("2"),
            Token::Dedent,
            Token::EndOfInput,
        ]
    );
}

#[test]
fn sign_disambiguation() {
    assert_eq!(lex("-5").unwrap(), vec![Token::Number("-5"), Token::EndOfInput]);

    assert_eq!(
        lex("a - b").unwrap(),
        vec![
            Token::VarName("a"),
            Token::Operator("-"),
            Token::VarName("b"),
            Token::EndOfInput,
        ]
    );

    assert_eq!(
        lex("f -5").unwrap(),
        vec![Token::VarName("f"), Token::Number("-5"), Token::EndOfInput]
    );
}

#[test]
fn keyword_precedence() {
    assert_eq!(lex("case").unwrap(), vec![Token::Case, Token::EndOfInput]);
    assert_eq!(lex("casex").unwrap(), vec![Token::VarName("casex"), Token::EndOfInput]);
}

#[test]
fn mismatched_indentation_is_fatal() {
    // The third line's width 1 lies strictly between the enclosing level at
    // column 0 and the open deeper level at column 2: no open level matches.
    assert_eq!(lex("0\n  2\n x"), Err(LexError::MismatchedIndentation));
}

#[test]
fn width_between_levels_after_one_space() {
    // A width that exceeds every open level opens a new block, so a single
    // leading space after a column-zero line is a plain indentation.
    assert_eq!(
        lex("0\n x").unwrap(),
        vec![
            Token::Number("0"),
            Token::Indent,
            Token::VarName("x"),
            Token::Dedent,
            Token::EndOfInput,
        ]
    );
}

#[test]
fn indents_and_dedents_balance() {
    let inputs = [
        "",
        "a",
        "a\n  b",
        "a\n  b\n    c\nd",
        "0\n  2\n  2\n    4\n      6\n  2\n",
        "(\n  )\n(",
    ];
    for input in inputs {
        let tokens = lex(input).unwrap();
        let indents = tokens.iter().filter(|t| **t == Token::Indent).count();
        let dedents = tokens.iter().filter(|t| **t == Token::Dedent).count();
        assert_eq!(indents, dedents);
        assert_eq!(tokens.last(), Some(&Token::EndOfInput));
    }
}

#[test]
fn siblings_at_the_same_width_stay_flat() {
    let tokens = lex("a\n  b\n  c\n  d").unwrap();

    assert_eq!(
        tokens,
        vec![
            Token::VarName("a"),
            Token::Indent,
            Token::VarName("b"),
            Token::VarName("c"),
            Token::VarName("d"),
            Token::Dedent,
            Token::EndOfInput,
        ]
    );
}

#[test]
fn structural_round_trip() {
    let tokens = lex("( [\n  ] ,\n)").unwrap();
    let symbols: Vec<Token> = tokens
        .iter()
        .filter(|t| !matches!(t, Token::Indent | Token::Dedent | Token::EndOfInput))
        .cloned()
        .collect();

    assert_eq!(
        symbols,
        vec![Token::LParen, Token::LBracket, Token::RBracket, Token::Comma, Token::RParen]
    );
}

#[test]
fn empty_input_is_only_end_of_input() {
    assert_eq!(lex("").unwrap(), vec![Token::EndOfInput]);
    assert_eq!(lex("  \n \n").unwrap(), vec![Token::EndOfInput]);
}

#[test]
fn blank_lines_make_no_layout_decision() {
    let tokens = lex("a\n  b\n\n  c").unwrap();

    assert_eq!(
        tokens,
        vec![
            Token::VarName("a"),
            Token::Indent,
            Token::VarName("b"),
            Token::VarName("c"),
            Token::Dedent,
            Token::EndOfInput,
        ]
    );
}

#[test]
fn cascading_dedents_come_one_per_call() {
    let mut lexer = Lexer::new("a\n  b\n    c\nd");

    assert_eq!(lexer.next(), Ok(Token::VarName("a")));
    assert_eq!(lexer.next(), Ok(Token::Indent));
    assert_eq!(lexer.next(), Ok(Token::VarName("b")));
    assert_eq!(lexer.next(), Ok(Token::Indent));
    assert_eq!(lexer.next(), Ok(Token::VarName("c")));
    assert_eq!(lexer.next(), Ok(Token::Dedent));
    assert_eq!(lexer.next(), Ok(Token::Dedent));
    assert_eq!(lexer.next(), Ok(Token::VarName("d")));
    assert_eq!(lexer.next(), Ok(Token::EndOfInput));
}

#[test]
fn end_of_input_unwinds_the_stack() {
    let mut lexer = Lexer::new("a\n  b\n    c");

    assert_eq!(lexer.next(), Ok(Token::VarName("a")));
    assert_eq!(lexer.next(), Ok(Token::Indent));
    assert_eq!(lexer.next(), Ok(Token::VarName("b")));
    assert_eq!(lexer.next(), Ok(Token::Indent));
    assert_eq!(lexer.next(), Ok(Token::VarName("c")));
    assert_eq!(lexer.next(), Ok(Token::Dedent));
    assert_eq!(lexer.next(), Ok(Token::Dedent));
    assert_eq!(lexer.next(), Ok(Token::EndOfInput));
}

#[test]
fn error_aborts_lex_all() {
    assert_eq!(lex("a ; b"), Err(LexError::InvalidCharacter));
}

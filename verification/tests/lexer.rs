use offside::lexer::Lexer;
use offside::token::{LexError, Token};

#[test]
fn test_lexer() {
    let program = "(Hello - world)";
    let mut lexer = Lexer::new(program);

    assert_eq!(lexer.next(), Ok(Token::LParen));
    assert_eq!(lexer.next(), Ok(Token::TypeName("Hello")));
    assert_eq!(lexer.next(), Ok(Token::Operator("-")));
    assert_eq!(lexer.next(), Ok(Token::VarName("world")));
    assert_eq!(lexer.next(), Ok(Token::RParen));
    assert_eq!(lexer.next(), Ok(Token::EndOfInput));
}

#[test]
fn test_lexer_numbers() {
    let program = "1 234 -5 6";
    let mut lexer = Lexer::new(program);

    assert_eq!(lexer.next(), Ok(Token::Number("1")));
    assert_eq!(lexer.next(), Ok(Token::Number("234")));
    assert_eq!(lexer.next(), Ok(Token::Number("-5")));
    assert_eq!(lexer.next(), Ok(Token::Number("6")));
    assert_eq!(lexer.next(), Ok(Token::EndOfInput));
}

#[test]
fn test_lexer_indentation() {
    let program = "0\n  2\n  2\n    4\n      6\n  2\n";
    let mut lexer = Lexer::new(program);

    assert_eq!(lexer.next(), Ok(Token::Number("0")));
    assert_eq!(lexer.next(), Ok(Token::Indent));
    assert_eq!(lexer.next(), Ok(Token::Number("2")));
    assert_eq!(lexer.next(), Ok(Token::Number("2")));
    assert_eq!(lexer.next(), Ok(Token::Indent));
    assert_eq!(lexer.next(), Ok(Token::Number("4")));
    assert_eq!(lexer.next(), Ok(Token::Indent));
    assert_eq!(lexer.next(), Ok(Token::Number("6")));
    assert_eq!(lexer.next(), Ok(Token::Dedent));
    assert_eq!(lexer.next(), Ok(Token::Dedent));
    assert_eq!(lexer.next(), Ok(Token::Number("2")));
    assert_eq!(lexer.next(), Ok(Token::Dedent));
    assert_eq!(lexer.next(), Ok(Token::EndOfInput));
}

#[test]
fn test_python_style_list() {
    let program = "a = [\n  1,\n  2,\n]";
    let mut lexer = Lexer::new(program);

    assert_eq!(lexer.next(), Ok(Token::VarName("a")));
    assert_eq!(lexer.next(), Ok(Token::Equals));
    assert_eq!(lexer.next(), Ok(Token::LBracket));
    assert_eq!(lexer.next(), Ok(Token::Indent));
    assert_eq!(lexer.next(), Ok(Token::Number("1")));
    assert_eq!(lexer.next(), Ok(Token::Comma));
    assert_eq!(lexer.next(), Ok(Token::Number("2")));
    assert_eq!(lexer.next(), Ok(Token::Comma));
    assert_eq!(lexer.next(), Ok(Token::Dedent));
    assert_eq!(lexer.next(), Ok(Token::RBracket));
    assert_eq!(lexer.next(), Ok(Token::EndOfInput));
}

#[test]
fn test_haskell_style_list() {
    let program = "a =\n  [ 1\n  , 2\n  ]";
    let mut lexer = Lexer::new(program);

    assert_eq!(lexer.next(), Ok(Token::VarName("a")));
    assert_eq!(lexer.next(), Ok(Token::Equals));
    assert_eq!(lexer.next(), Ok(Token::Indent));
    assert_eq!(lexer.next(), Ok(Token::LBracket));
    assert_eq!(lexer.next(), Ok(Token::Number("1")));
    assert_eq!(lexer.next(), Ok(Token::Comma));
    assert_eq!(lexer.next(), Ok(Token::Number("2")));
    assert_eq!(lexer.next(), Ok(Token::RBracket));
    assert_eq!(lexer.next(), Ok(Token::Dedent));
    assert_eq!(lexer.next(), Ok(Token::EndOfInput));
}

#[test]
fn keywords_each_have_their_own_token() {
    let program = "type alias port module exposing where let in case of if then else";
    let mut lexer = Lexer::new(program);

    assert_eq!(lexer.next(), Ok(Token::Type));
    assert_eq!(lexer.next(), Ok(Token::Alias));
    assert_eq!(lexer.next(), Ok(Token::Port));
    assert_eq!(lexer.next(), Ok(Token::Module));
    assert_eq!(lexer.next(), Ok(Token::Exposing));
    assert_eq!(lexer.next(), Ok(Token::Where));
    assert_eq!(lexer.next(), Ok(Token::Let));
    assert_eq!(lexer.next(), Ok(Token::In));
    assert_eq!(lexer.next(), Ok(Token::Case));
    assert_eq!(lexer.next(), Ok(Token::Of));
    assert_eq!(lexer.next(), Ok(Token::If));
    assert_eq!(lexer.next(), Ok(Token::Then));
    assert_eq!(lexer.next(), Ok(Token::Else));
    assert_eq!(lexer.next(), Ok(Token::EndOfInput));
}

#[test]
fn structural_symbols_lex_one_per_character() {
    let mut lexer = Lexer::new("[](),:_@=");

    assert_eq!(lexer.next(), Ok(Token::LBracket));
    assert_eq!(lexer.next(), Ok(Token::RBracket));
    assert_eq!(lexer.next(), Ok(Token::LParen));
    assert_eq!(lexer.next(), Ok(Token::RParen));
    assert_eq!(lexer.next(), Ok(Token::Comma));
    assert_eq!(lexer.next(), Ok(Token::Colon));
    assert_eq!(lexer.next(), Ok(Token::Underscore));
    assert_eq!(lexer.next(), Ok(Token::At));
    assert_eq!(lexer.next(), Ok(Token::Equals));
    assert_eq!(lexer.next(), Ok(Token::EndOfInput));
}

#[test]
fn arrow_takes_priority_over_minus() {
    let mut lexer = Lexer::new("a -> b");

    assert_eq!(lexer.next(), Ok(Token::VarName("a")));
    assert_eq!(lexer.next(), Ok(Token::RightArrow));
    assert_eq!(lexer.next(), Ok(Token::VarName("b")));
    assert_eq!(lexer.next(), Ok(Token::EndOfInput));
}

#[test]
fn minus_alone_is_an_operator() {
    let mut lexer = Lexer::new("-");

    assert_eq!(lexer.next(), Ok(Token::Operator("-")));
    assert_eq!(lexer.next(), Ok(Token::EndOfInput));
}

#[test]
fn minus_before_a_letter_is_an_operator() {
    let mut lexer = Lexer::new("-x");

    assert_eq!(lexer.next(), Ok(Token::Operator("-")));
    assert_eq!(lexer.next(), Ok(Token::VarName("x")));
    assert_eq!(lexer.next(), Ok(Token::EndOfInput));
}

#[test]
fn mixed_case_word_starting_lowercase_is_a_varname() {
    let mut lexer = Lexer::new("fooBar Baz");

    assert_eq!(lexer.next(), Ok(Token::VarName("fooBar")));
    assert_eq!(lexer.next(), Ok(Token::TypeName("Baz")));
    assert_eq!(lexer.next(), Ok(Token::EndOfInput));
}

#[test]
fn invalid_character_is_a_lexical_error() {
    let mut lexer = Lexer::new("a { b");

    assert_eq!(lexer.next(), Ok(Token::VarName("a")));
    assert_eq!(lexer.next(), Err(LexError::InvalidCharacter));
}

#[test]
fn non_ascii_character_is_a_lexical_error() {
    let mut lexer = Lexer::new("caf\u{e9}");

    assert_eq!(lexer.next(), Ok(Token::VarName("caf")));
    assert_eq!(lexer.next(), Err(LexError::InvalidCharacter));
}

#[test]
fn tab_is_not_whitespace_and_is_a_lexical_error() {
    let mut lexer = Lexer::new("\ta");

    assert_eq!(lexer.next(), Err(LexError::InvalidCharacter));
}

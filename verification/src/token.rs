//! The token type produced by the lexer, its mathematical model, and the
//! classification of scanned words into keywords.

use vstd::prelude::*;

verus! {

/// A token of the layout-sensitive language.
///
/// Lexical tokens (`TypeName`, `VarName`, `Operator`, `StringLit`, `Number`)
/// carry the exact matched source substring, borrowed from the input buffer;
/// no text is ever copied. `Indent` and `Dedent` are synthesized by the
/// layout engine from column positions alone, and `EndOfInput` appears
/// exactly once, as the final token of a successful lex.
///
/// The fixed punctuation set of this dialect is `[` `]` `(` `)` `,` `:`
/// `_` `@` `=`, each a single-character structural token, plus the one
/// two-character lexeme `->` (`RightArrow`), which maximal munch prefers
/// over reading `-` alone.
///
/// A word made of ASCII letters that starts with a lowercase letter is a
/// keyword token exactly when its full text is a byte-exact, case-sensitive
/// match of one of the thirteen recognized spellings; otherwise it is a
/// `VarName`. No scanning rule currently produces `StringLit`: string-literal
/// processing is outside the lexer's scope, and the variant exists only so
/// that the token set is closed under the language's data model.
#[derive(Clone, Copy, PartialEq, Eq, Debug)]
pub enum Token<'a> {
    LBracket,
    RBracket,
    LParen,
    RParen,
    Colon,
    RightArrow,
    Underscore,
    At,
    Equals,
    Comma,
    Type,
    Alias,
    Port,
    Module,
    Exposing,
    Where,
    Let,
    In,
    Case,
    Of,
    If,
    Then,
    Else,
    TypeName(&'a str),
    VarName(&'a str),
    Operator(&'a str),
    StringLit(&'a str),
    Number(&'a str),
    Indent,
    Dedent,
    EndOfInput,
}

/// The mathematical model of a token: the same tagged value, with each
/// borrowed substring abstracted to its sequence of characters.
pub enum TokenModel {
    LBracket,
    RBracket,
    LParen,
    RParen,
    Colon,
    RightArrow,
    Underscore,
    At,
    Equals,
    Comma,
    Type,
    Alias,
    Port,
    Module,
    Exposing,
    Where,
    Let,
    In,
    Case,
    Of,
    If,
    Then,
    Else,
    TypeName(Seq<char>),
    VarName(Seq<char>),
    Operator(Seq<char>),
    StringLit(Seq<char>),
    Number(Seq<char>),
    Indent,
    Dedent,
    EndOfInput,
}

impl<'a> View for Token<'a> {
    type V = TokenModel;

    open spec fn view(&self) -> TokenModel {
        match *self {
            Token::LBracket => TokenModel::LBracket,
            Token::RBracket => TokenModel::RBracket,
            Token::LParen => TokenModel::LParen,
            Token::RParen => TokenModel::RParen,
            Token::Colon => TokenModel::Colon,
            Token::RightArrow => TokenModel::RightArrow,
            Token::Underscore => TokenModel::Underscore,
            Token::At => TokenModel::At,
            Token::Equals => TokenModel::Equals,
            Token::Comma => TokenModel::Comma,
            Token::Type => TokenModel::Type,
            Token::Alias => TokenModel::Alias,
            Token::Port => TokenModel::Port,
            Token::Module => TokenModel::Module,
            Token::Exposing => TokenModel::Exposing,
            Token::Where => TokenModel::Where,
            Token::Let => TokenModel::Let,
            Token::In => TokenModel::In,
            Token::Case => TokenModel::Case,
            Token::Of => TokenModel::Of,
            Token::If => TokenModel::If,
            Token::Then => TokenModel::Then,
            Token::Else => TokenModel::Else,
            Token::TypeName(s) => TokenModel::TypeName(s@),
            Token::VarName(s) => TokenModel::VarName(s@),
            Token::Operator(s) => TokenModel::Operator(s@),
            Token::StringLit(s) => TokenModel::StringLit(s@),
            Token::Number(s) => TokenModel::Number(s@),
            Token::Indent => TokenModel::Indent,
            Token::Dedent => TokenModel::Dedent,
            Token::EndOfInput => TokenModel::EndOfInput,
        }
    }
}

impl<'a> DeepView for Token<'a> {
    type V = TokenModel;

    open spec fn deep_view(&self) -> TokenModel {
        self.view()
    }
}

/// The closed set of lexical and layout errors. All are fatal: the first
/// error aborts the whole lex operation, with no resynchronization.
#[derive(Clone, Copy, PartialEq, Eq, Structural, Debug)]
pub enum LexError {
    /// The current character cannot start any recognized token.
    InvalidCharacter,
    /// A numeric scan matched zero digits after the sign. The classification
    /// rules only enter a numeric scan after looking ahead at a digit, so no
    /// input currently produces this error; the variant completes the
    /// error taxonomy.
    InvalidNumber,
    /// A dedented line's width equals no currently-open enclosing level.
    MismatchedIndentation,
}

/// Character classes used by the scanner (ASCII classification only).
pub open spec fn is_lower(c: char) -> bool {
    'a' <= c && c <= 'z'
}

pub open spec fn is_upper(c: char) -> bool {
    'A' <= c && c <= 'Z'
}

pub open spec fn is_letter(c: char) -> bool {
    is_lower(c) || is_upper(c)
}

pub open spec fn is_digit(c: char) -> bool {
    '0' <= c && c <= '9'
}

/// Inter-token whitespace: a space or a line terminator.
pub open spec fn is_layout(c: char) -> bool {
    c == ' ' || c == '\n'
}

/// Whether `text` is one of the thirteen recognized keyword spellings.
pub open spec fn is_keyword_text(text: Seq<char>) -> bool {
    ||| text == "type"@
    ||| text == "alias"@
    ||| text == "port"@
    ||| text == "module"@
    ||| text == "exposing"@
    ||| text == "where"@
    ||| text == "let"@
    ||| text == "in"@
    ||| text == "case"@
    ||| text == "of"@
    ||| text == "if"@
    ||| text == "then"@
    ||| text == "else"@
}

/// The token denoted by a scanned word that starts with a lowercase letter:
/// the keyword token on a byte-exact match of a keyword spelling, and a
/// `VarName` carrying the word itself otherwise.
pub open spec fn classify_word(text: Seq<char>) -> TokenModel {
    if text == "type"@ {
        TokenModel::Type
    } else if text == "alias"@ {
        TokenModel::Alias
    } else if text == "port"@ {
        TokenModel::Port
    } else if text == "module"@ {
        TokenModel::Module
    } else if text == "exposing"@ {
        TokenModel::Exposing
    } else if text == "where"@ {
        TokenModel::Where
    } else if text == "let"@ {
        TokenModel::Let
    } else if text == "in"@ {
        TokenModel::In
    } else if text == "case"@ {
        TokenModel::Case
    } else if text == "of"@ {
        TokenModel::Of
    } else if text == "if"@ {
        TokenModel::If
    } else if text == "then"@ {
        TokenModel::Then
    } else if text == "else"@ {
        TokenModel::Else
    } else {
        TokenModel::VarName(text)
    }
}

/// The model of one lexer result: the token abstracted to its model, the
/// error carried through unchanged.
pub open spec fn result_view<'a>(r: Result<Token<'a>, LexError>) -> Result<TokenModel, LexError> {
    match r {
        Ok(t) => Ok(t@),
        Err(e) => Err(e),
    }
}

/// Character-by-character string equality, verified against the views.
pub(crate) fn str_eq(a: &str, b: &str) -> (r: bool)
    ensures
        r == (a@ == b@),
{
    let a_len = a.unicode_len();
    let b_len = b.unicode_len();
    if a_len != b_len {
        return false;
    }
    let mut i: usize = 0;
    while i < a_len
        invariant
            a_len == a@.len(),
            b_len == b@.len(),
            a_len == b_len,
            i <= a_len,
            forall|j: int| 0 <= j < i ==> a@[j] == b@[j],
        decreases a_len - i,
    {
        if a.get_char(i) != b.get_char(i) {
            return false;
        }
        i = i + 1;
    }
    proof {
        assert(a@ =~= b@);
    }
    true
}

/// Keyword lookup for a scanned word, checked in the order of the
/// recognized spellings; a keyword pre-empts the generic `VarName`.
pub(crate) fn classify_word_exec<'a>(text: &'a str) -> (t: Token<'a>)
    ensures
        t@ == classify_word(text@),
{
    if str_eq(text, "type") {
        Token::Type
    } else if str_eq(text, "alias") {
        Token::Alias
    } else if str_eq(text, "port") {
        Token::Port
    } else if str_eq(text, "module") {
        Token::Module
    } else if str_eq(text, "exposing") {
        Token::Exposing
    } else if str_eq(text, "where") {
        Token::Where
    } else if str_eq(text, "let") {
        Token::Let
    } else if str_eq(text, "in") {
        Token::In
    } else if str_eq(text, "case") {
        Token::Case
    } else if str_eq(text, "of") {
        Token::Of
    } else if str_eq(text, "if") {
        Token::If
    } else if str_eq(text, "then") {
        Token::Then
    } else if str_eq(text, "else") {
        Token::Else
    } else {
        Token::VarName(text)
    }
}

} // verus!

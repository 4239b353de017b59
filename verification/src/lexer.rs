//! The executable lexer: a character scanner with row and column
//! bookkeeping, the stack-based layout engine, and the driver that turns a
//! complete input into a token stream. Every step is proved to implement
//! the specification-level state machine of the model module.

use vstd::prelude::*;
use vstd::string::StrSliceExecFns;

use crate::model::{
    advance_to, digit_run_end, init_model, lemma_digit_run, lemma_init_wf, lemma_letter_run,
    lemma_position_bounds, lemma_skip_ws, lemma_spec_next, lemma_step_char, letter_run_end,
    lookahead_spec, peek_spec, pend_val, pop_level, skip_ws, spec_lex, spec_lex_all, spec_next,
    spec_scan, step_char, LexerModel,
};
use crate::token::{
    classify_word_exec, is_digit, is_letter, is_lower, is_upper, result_view, LexError, Token,
    TokenModel,
};

verus! {

/// One lexer instance: the input buffer it borrows from, a character-index
/// cursor with row and column bookkeeping, the indentation stack of
/// currently-open block widths, and the pending-newline flag that makes the
/// layout engine run before the scanner.
pub struct Lexer<'a> {
    input: &'a str,
    length: usize,
    cursor: usize,
    row: usize,
    col: usize,
    stack: Vec<usize>,
    pending: bool,
}

impl<'a> View for Lexer<'a> {
    type V = LexerModel;

    closed spec fn view(&self) -> LexerModel {
        LexerModel {
            input: self.input@,
            cursor: self.cursor as int,
            row: self.row as int,
            col: self.col as int,
            stack: self.stack@.map_values(|w: usize| w as int),
            pending: self.pending,
        }
    }
}

impl<'a> Lexer<'a> {
    /// Well-formedness: the cached character count matches the input, and
    /// the modelled state is well-formed. Established by the constructor
    /// and preserved by every call.
    pub closed spec fn wf(&self) -> bool {
        &&& self.length == self.input@.len()
        &&& self@.wf()
    }

    /// A fresh lexer at the start of `input`, with an empty indentation
    /// stack and no layout decision owed.
    pub fn new(input: &'a str) -> (l: Lexer<'a>)
        ensures
            l.wf(),
            l@ == init_model(input@),
    {
        let length = input.unicode_len();
        let l = Lexer { input, length, cursor: 0, row: 0, col: 0, stack: Vec::new(), pending: false };
        proof {
            lemma_init_wf(input@);
            assert(l@.stack =~= init_model(input@).stack);
        }
        l
    }

    /// The character under the cursor, without advancing.
    fn peek_char(&self) -> (r: Option<char>)
        requires
            self.wf(),
        ensures
            r == peek_spec(self@),
    {
        if self.cursor < self.length {
            Some(self.input.get_char(self.cursor))
        } else {
            None
        }
    }

    /// The character one position past the cursor, without advancing.
    fn lookahead_char(&self) -> (r: Option<char>)
        requires
            self.wf(),
        ensures
            r == lookahead_spec(self@),
    {
        if self.length - self.cursor >= 2 {
            Some(self.input.get_char(self.cursor + 1))
        } else {
            None
        }
    }

    /// Consumes the single character under the cursor. A newline advances
    /// the row, resets the column and raises the pending-newline flag; any
    /// other character advances the column.
    fn pop_char(&mut self)
        requires
            old(self).wf(),
            old(self)@.cursor < old(self)@.input.len(),
        ensures
            final(self).wf(),
            final(self)@ == step_char(old(self)@),
            final(self).input == old(self).input,
            final(self).length == old(self).length,
    {
        proof {
            lemma_position_bounds(self.input@, self.cursor as int);
            lemma_step_char(self@);
        }
        let ch = self.input.get_char(self.cursor);
        if ch == '\n' {
            self.row = self.row + 1;
            self.col = 0;
            self.pending = true;
        } else {
            self.col = self.col + 1;
        }
        self.cursor = self.cursor + 1;
    }

    /// Consumes the maximal run of spaces and newlines at the cursor.
    /// Whitespace never becomes a token; each newline consumed here raises
    /// the pending-newline flag for the layout engine.
    fn consume_whitespace(&mut self)
        requires
            old(self).wf(),
        ensures
            final(self).wf(),
            final(self)@ == skip_ws(old(self)@),
            final(self).input == old(self).input,
            final(self).length == old(self).length,
    {
        loop
            invariant
                self.wf(),
                self.input == old(self).input,
                self.length == old(self).length,
                skip_ws(self@) == skip_ws(old(self)@),
            ensures
                self.wf(),
                self.input == old(self).input,
                self.length == old(self).length,
                self@ == skip_ws(old(self)@),
            decreases self@.input.len() - self@.cursor,
        {
            match self.peek_char() {
                Some(ch) => {
                    if ch == ' ' || ch == '\n' {
                        self.pop_char();
                    } else {
                        proof {
                            assert(skip_ws(self@) == self@);
                        }
                        break;
                    }
                },
                None => {
                    proof {
                        assert(skip_ws(self@) == self@);
                    }
                    break;
                },
            }
        }
    }

    /// Scans the maximal run of ASCII letters at the cursor; a word starting
    /// with a lowercase letter is a keyword token on a byte-exact match of a
    /// recognized spelling, and otherwise a `VarName` carrying the word.
    fn scan_varname(&mut self) -> (r: Result<Token<'a>, LexError>)
        requires
            old(self).wf(),
            old(self)@.cursor < old(self)@.input.len(),
            is_lower(old(self)@.input[old(self)@.cursor]),
        ensures
            final(self).wf(),
            final(self)@ == spec_scan(old(self)@).0,
            result_view(r) == spec_scan(old(self)@).1,
    {
        let start = self.cursor;
        self.advance_letters();
        proof {
            lemma_letter_run(old(self)@.input, old(self)@.cursor);
        }
        let text = self.input.substring_char(start, self.cursor);
        Ok(classify_word_exec(text))
    }

    /// Scans the maximal run of ASCII letters at the cursor as a `TypeName`.
    fn scan_typename(&mut self) -> (r: Result<Token<'a>, LexError>)
        requires
            old(self).wf(),
            old(self)@.cursor < old(self)@.input.len(),
            is_upper(old(self)@.input[old(self)@.cursor]),
        ensures
            final(self).wf(),
            final(self)@ == spec_scan(old(self)@).0,
            result_view(r) == spec_scan(old(self)@).1,
    {
        let start = self.cursor;
        self.advance_letters();
        proof {
            lemma_letter_run(old(self)@.input, old(self)@.cursor);
        }
        let text = self.input.substring_char(start, self.cursor);
        Ok(Token::TypeName(text))
    }

    /// Consumes the maximal run of ASCII letters at the cursor.
    fn advance_letters(&mut self)
        requires
            old(self).wf(),
            old(self)@.cursor < old(self)@.input.len(),
            is_letter(old(self)@.input[old(self)@.cursor]),
        ensures
            final(self).wf(),
            final(self)@ == advance_to(old(self)@, letter_run_end(old(self)@.input, old(self)@.cursor)),
            final(self).input == old(self).input,
            final(self).length == old(self).length,
    {
        proof {
            lemma_letter_run(self@.input, self@.cursor);
        }
        loop
            invariant
                self.wf(),
                self.input == old(self).input,
                self.length == old(self).length,
                old(self)@.cursor <= self@.cursor <= self@.input.len(),
                self@ == advance_to(old(self)@, self@.cursor),
                letter_run_end(self@.input, self@.cursor) == letter_run_end(
                    old(self)@.input,
                    old(self)@.cursor,
                ),
            ensures
                self.wf(),
                self.input == old(self).input,
                self.length == old(self).length,
                self@ == advance_to(old(self)@, self@.cursor),
                self@.cursor == letter_run_end(old(self)@.input, old(self)@.cursor),
            decreases self@.input.len() - self@.cursor,
        {
            match self.peek_char() {
                Some(ch) => {
                    if (ch >= 'a' && ch <= 'z') || (ch >= 'A' && ch <= 'Z') {
                        self.pop_char();
                    } else {
                        break;
                    }
                },
                None => {
                    break;
                },
            }
        }
    }

    /// Scans a number literal: an optional leading `-` (consumed only when
    /// the caller has seen a digit behind it) followed by the maximal run of
    /// ASCII digits, all carried as the matched substring.
    fn scan_number(&mut self) -> (r: Result<Token<'a>, LexError>)
        requires
            old(self).wf(),
            old(self)@.cursor < old(self)@.input.len(),
            ({
                let s = old(self)@.input;
                let i = old(self)@.cursor;
                is_digit(s[i]) || (s[i] == '-' && i + 1 < s.len() && is_digit(s[i + 1]))
            }),
        ensures
            final(self).wf(),
            final(self)@ == spec_scan(old(self)@).0,
            result_view(r) == spec_scan(old(self)@).1,
    {
        let start = self.cursor;
        let ghost m0 = self@;
        let ch = self.input.get_char(self.cursor);
        if ch == '-' {
            self.pop_char();
        }
        let ghost run_start = self@.cursor;
        proof {
            lemma_digit_run(self@.input, self@.cursor);
        }
        loop
            invariant
                self.wf(),
                self.input == old(self).input,
                self.length == old(self).length,
                run_start <= self@.cursor <= self@.input.len(),
                self@ == advance_to(m0, self@.cursor),
                m0 == old(self)@,
                digit_run_end(self@.input, self@.cursor) == digit_run_end(
                    old(self)@.input,
                    run_start,
                ),
            ensures
                self.wf(),
                self.input == old(self).input,
                self.length == old(self).length,
                self@ == advance_to(m0, self@.cursor),
                self@.cursor == digit_run_end(old(self)@.input, run_start),
            decreases self@.input.len() - self@.cursor,
        {
            match self.peek_char() {
                Some(d) => {
                    if d >= '0' && d <= '9' {
                        self.pop_char();
                    } else {
                        break;
                    }
                },
                None => {
                    break;
                },
            }
        }
        let text = self.input.substring_char(start, self.cursor);
        Ok(Token::Number(text))
    }

    /// Scans a single-character `Operator` token carrying the character at
    /// the cursor as its matched substring.
    fn scan_operator(&mut self) -> (r: Result<Token<'a>, LexError>)
        requires
            old(self).wf(),
            old(self)@.cursor < old(self)@.input.len(),
            old(self)@.input[old(self)@.cursor] != '\n',
        ensures
            final(self).wf(),
            final(self)@ == advance_to(old(self)@, old(self)@.cursor + 1),
            result_view(r) == Ok::<TokenModel, LexError>(
                TokenModel::Operator(
                    old(self)@.input.subrange(old(self)@.cursor, old(self)@.cursor + 1),
                ),
            ),
    {
        let start = self.cursor;
        self.pop_char();
        let text = self.input.substring_char(start, self.cursor);
        Ok(Token::Operator(text))
    }

    /// The scanner: classifies the lexeme at the cursor, in priority order.
    /// `-` is disambiguated by one character of lookahead: `->` is an arrow,
    /// a digit makes it the sign of a number literal, and anything else
    /// (including end of input) leaves it a single-character operator. A
    /// character no rule covers is a lexical error under the strict policy.
    fn scan_token(&mut self) -> (r: Result<Token<'a>, LexError>)
        requires
            old(self).wf(),
            old(self)@.cursor < old(self)@.input.len(),
        ensures
            final(self).wf(),
            final(self)@ == spec_scan(old(self)@).0,
            result_view(r) == spec_scan(old(self)@).1,
    {
        let c = self.input.get_char(self.cursor);
        if c >= 'a' && c <= 'z' {
            self.scan_varname()
        } else if c >= 'A' && c <= 'Z' {
            self.scan_typename()
        } else if c >= '0' && c <= '9' {
            self.scan_number()
        } else if c == '[' {
            self.pop_char();
            Ok(Token::LBracket)
        } else if c == ']' {
            self.pop_char();
            Ok(Token::RBracket)
        } else if c == '(' {
            self.pop_char();
            Ok(Token::LParen)
        } else if c == ')' {
            self.pop_char();
            Ok(Token::RParen)
        } else if c == ',' {
            self.pop_char();
            Ok(Token::Comma)
        } else if c == ':' {
            self.pop_char();
            Ok(Token::Colon)
        } else if c == '_' {
            self.pop_char();
            Ok(Token::Underscore)
        } else if c == '@' {
            self.pop_char();
            Ok(Token::At)
        } else if c == '=' {
            self.pop_char();
            Ok(Token::Equals)
        } else if c == '-' {
            match self.lookahead_char() {
                Some(la) => {
                    if la == '>' {
                        self.pop_char();
                        self.pop_char();
                        Ok(Token::RightArrow)
                    } else if la >= '0' && la <= '9' {
                        self.scan_number()
                    } else {
                        self.scan_operator()
                    }
                },
                None => self.scan_operator(),
            }
        } else {
            Err(LexError::InvalidCharacter)
        }
    }

    /// One call of the lexer, the only public stepping operation.
    ///
    /// Whitespace is consumed first. At end of input the indentation stack
    /// is unwound one `Dedent` per call before `EndOfInput` is produced.
    /// Otherwise, if a newline was consumed, the layout engine compares the
    /// first non-whitespace column of the new line against the stack: a
    /// deeper column opens a block (`Indent`), the same column keeps the
    /// stream flat, and a shallower column closes exactly one block per
    /// call (`Dedent`), cascading across further calls, or reports a
    /// mismatch when the column equals no open level. Only when no layout
    /// token is owed is the scanner consulted.
    pub fn next(&mut self) -> (r: Result<Token<'a>, LexError>)
        requires
            old(self).wf(),
        ensures
            final(self).wf(),
            final(self)@ == spec_next(old(self)@).0,
            result_view(r) == spec_next(old(self)@).1,
    {
        proof {
            lemma_spec_next(old(self)@);
            lemma_skip_ws(old(self)@);
        }
        self.consume_whitespace();
        let ghost m1 = self@;
        proof {
            lemma_position_bounds(m1.input, m1.cursor);
        }
        if self.cursor == self.length {
            if self.stack.len() > 0 {
                let _ = self.stack.pop();
                proof {
                    assert(self@.stack =~= pop_level(m1).stack);
                }
                Ok(Token::Dedent)
            } else {
                Ok(Token::EndOfInput)
            }
        } else {
            let mut layout_done = false;
            if self.pending {
                let w = self.col;
                let top = if self.stack.len() > 0 {
                    self.stack[self.stack.len() - 1]
                } else {
                    0
                };
                if w > top {
                    self.stack.push(w);
                    self.pending = false;
                    proof {
                        assert(self@.stack =~= m1.stack.push(w as int));
                    }
                    return Ok(Token::Indent);
                } else if w < top {
                    let deeper = if self.stack.len() >= 2 {
                        self.stack[self.stack.len() - 2]
                    } else {
                        0
                    };
                    if w > deeper {
                        return Err(LexError::MismatchedIndentation);
                    }
                    let _ = self.stack.pop();
                    if w == deeper {
                        self.pending = false;
                    }
                    proof {
                        assert(self@.stack =~= pop_level(m1).stack);
                    }
                    return Ok(Token::Dedent);
                } else {
                    self.pending = false;
                    layout_done = true;
                }
            }
            proof {
                if layout_done {
                    assert(self@ == LexerModel { pending: false, ..m1 });
                } else {
                    assert(self@ == m1);
                }
            }
            self.scan_token()
        }
    }
}

/// Lexes a complete input: repeated calls of [`Lexer::next`], collecting
/// each token, stopping inclusively at the first `EndOfInput` or
/// propagating the first error. On success the returned stream is exactly
/// the token sequence the specification-level state machine denotes for
/// the input, with `EndOfInput` as its final element.
pub fn lex<'a>(input: &'a str) -> (r: Result<Vec<Token<'a>>, LexError>)
    ensures
        (match r {
            Ok(v) => spec_lex_all(input@) == Ok::<Seq<TokenModel>, LexError>(v.deep_view()),
            Err(e) => spec_lex_all(input@) == Err::<Seq<TokenModel>, LexError>(e),
        }),
{
    let mut lexer = Lexer::new(input);
    let mut output: Vec<Token<'a>> = Vec::new();
    proof {
        lemma_init_wf(input@);
        let ghost sl = spec_lex(lexer@);
        match sl {
            Ok(rest) => {
                assert(output.deep_view() + rest =~= rest);
            },
            Err(_) => {},
        }
    }
    loop
        invariant
            lexer.wf(),
            lexer@.input == input@,
            (match spec_lex(lexer@) {
                Ok(rest) => spec_lex_all(input@) == Ok::<Seq<TokenModel>, LexError>(
                    output.deep_view() + rest,
                ),
                Err(e) => spec_lex_all(input@) == Err::<Seq<TokenModel>, LexError>(e),
            }),
        decreases lexer@.input.len() - lexer@.cursor, pend_val(lexer@), lexer@.stack.len(),
    {
        let ghost m = lexer@;
        proof {
            lemma_spec_next(m);
        }
        match lexer.next() {
            Err(e) => {
                return Err(e);
            },
            Ok(t) => {
                let ghost out_before = output.deep_view();
                output.push(t);
                proof {
                    assert(output.deep_view() =~= out_before.push(t@));
                }
                match t {
                    Token::EndOfInput => {
                        proof {
                            assert(out_before + seq![t@] =~= output.deep_view());
                        }
                        return Ok(output);
                    },
                    _ => {
                        proof {
                            assert(!(t@ is EndOfInput));
                            match spec_lex(lexer@) {
                                Ok(rest) => {
                                    assert(out_before + (seq![t@] + rest) =~= output.deep_view()
                                        + rest);
                                },
                                Err(_) => {},
                            }
                        }
                    },
                }
            },
        }
    }
}

} // verus!

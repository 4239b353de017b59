//! The mathematical model of the lexer: its cursor state, the layout
//! engine's indentation stack, and the specification-level state machine
//! that the executable lexer is proved to implement step by step.

use vstd::prelude::*;

use crate::token::{
    classify_word, is_digit, is_layout, is_letter, is_lower, is_upper, LexError, TokenModel,
};

verus! {

/// The complete state of one lexer instance, over the character sequence of
/// the input: a cursor with row and column bookkeeping, the indentation
/// stack of currently-open block widths, and the pending-newline flag that
/// makes the layout engine run before the scanner.
pub struct LexerModel {
    pub input: Seq<char>,
    pub cursor: int,
    pub row: int,
    pub col: int,
    pub stack: Seq<int>,
    pub pending: bool,
}

/// The start of the line containing position `i`: the least position at or
/// before `i` that is the beginning of the input or preceded by a newline.
pub open spec fn line_start(s: Seq<char>, i: int) -> int
    decreases i,
{
    if i <= 0 {
        0
    } else if s[i - 1] == '\n' {
        i
    } else {
        line_start(s, i - 1)
    }
}

/// The number of newline characters strictly before position `i`.
pub open spec fn newline_count(s: Seq<char>, i: int) -> int
    decreases i,
{
    if i <= 0 {
        0
    } else {
        newline_count(s, i - 1) + if s[i - 1] == '\n' {
            1int
        } else {
            0int
        }
    }
}

impl LexerModel {
    /// The indentation width of the innermost open block, with the implicit
    /// bottom-of-stack level at column zero.
    pub open spec fn top(self) -> int {
        if self.stack.len() > 0 {
            self.stack.last()
        } else {
            0
        }
    }

    /// Well-formedness: the cursor lies within the input, the column counts
    /// the characters since the last newline, the row counts the newlines
    /// consumed, and the indentation stack is strictly increasing from
    /// bottom to top, every level deeper than the implicit column zero.
    pub open spec fn wf(self) -> bool {
        &&& 0 <= self.cursor <= self.input.len()
        &&& self.col == self.cursor - line_start(self.input, self.cursor)
        &&& self.row == newline_count(self.input, self.cursor)
        &&& forall|i: int, j: int|
            0 <= i < j < self.stack.len() ==> self.stack[i] < self.stack[j]
        &&& forall|i: int| 0 <= i < self.stack.len() ==> 0 < #[trigger] self.stack[i]
    }
}

/// The state of a freshly-constructed lexer over input `s`.
pub open spec fn init_model(s: Seq<char>) -> LexerModel {
    LexerModel { input: s, cursor: 0, row: 0, col: 0, stack: Seq::empty(), pending: false }
}

/// Consuming the single character at the cursor: a newline advances the row,
/// resets the column and raises the pending-newline flag; any other
/// character advances the column.
pub open spec fn step_char(m: LexerModel) -> LexerModel {
    if m.input[m.cursor] == '\n' {
        LexerModel { cursor: m.cursor + 1, row: m.row + 1, col: 0, pending: true, ..m }
    } else {
        LexerModel { cursor: m.cursor + 1, col: m.col + 1, ..m }
    }
}

/// Consuming the maximal run of spaces and newlines at the cursor.
pub open spec fn skip_ws(m: LexerModel) -> LexerModel
    decreases m.input.len() - m.cursor,
{
    if m.cursor < m.input.len() && is_layout(m.input[m.cursor]) {
        skip_ws(step_char(m))
    } else {
        m
    }
}

/// The end of the maximal run of ASCII letters starting at position `i`.
pub open spec fn letter_run_end(s: Seq<char>, i: int) -> int
    decreases s.len() - i,
{
    if i < s.len() && is_letter(s[i]) {
        letter_run_end(s, i + 1)
    } else {
        i
    }
}

/// The end of the maximal run of ASCII digits starting at position `i`.
pub open spec fn digit_run_end(s: Seq<char>, i: int) -> int
    decreases s.len() - i,
{
    if i < s.len() && is_digit(s[i]) {
        digit_run_end(s, i + 1)
    } else {
        i
    }
}

/// Advancing the cursor to position `j` across characters of the current
/// line: the column grows by the same amount, and the row, the stack and
/// the pending-newline flag are untouched. Meaningful only when no newline
/// lies in between, which holds for every scanned lexeme.
pub open spec fn advance_to(m: LexerModel, j: int) -> LexerModel {
    LexerModel { cursor: j, col: m.col + (j - m.cursor), ..m }
}

/// Popping the innermost open block from the indentation stack.
pub open spec fn pop_level(m: LexerModel) -> LexerModel {
    LexerModel { stack: m.stack.drop_last(), ..m }
}

/// The scanner: classification of the lexeme at the cursor, assuming layout
/// has been resolved and the cursor rests on a non-whitespace character.
///
/// The rules, in priority order: a lowercase letter starts a word that is a
/// keyword or a `VarName`; an uppercase letter starts a `TypeName`; a digit
/// starts a `Number`; the fixed single-character symbols each yield their
/// structural token; `-` is disambiguated by one character of lookahead
/// (`->` arrow, a digit makes a signed `Number`, anything else a
/// single-character `Operator`); any other character is a lexical error
/// under the strict policy adopted here.
pub open spec fn spec_scan(m: LexerModel) -> (LexerModel, Result<TokenModel, LexError>) {
    let s = m.input;
    let i = m.cursor;
    let c = s[i];
    if is_lower(c) {
        let j = letter_run_end(s, i);
        (advance_to(m, j), Ok(classify_word(s.subrange(i, j))))
    } else if is_upper(c) {
        let j = letter_run_end(s, i);
        (advance_to(m, j), Ok(TokenModel::TypeName(s.subrange(i, j))))
    } else if is_digit(c) {
        let j = digit_run_end(s, i);
        (advance_to(m, j), Ok(TokenModel::Number(s.subrange(i, j))))
    } else if c == '[' {
        (advance_to(m, i + 1), Ok(TokenModel::LBracket))
    } else if c == ']' {
        (advance_to(m, i + 1), Ok(TokenModel::RBracket))
    } else if c == '(' {
        (advance_to(m, i + 1), Ok(TokenModel::LParen))
    } else if c == ')' {
        (advance_to(m, i + 1), Ok(TokenModel::RParen))
    } else if c == ',' {
        (advance_to(m, i + 1), Ok(TokenModel::Comma))
    } else if c == ':' {
        (advance_to(m, i + 1), Ok(TokenModel::Colon))
    } else if c == '_' {
        (advance_to(m, i + 1), Ok(TokenModel::Underscore))
    } else if c == '@' {
        (advance_to(m, i + 1), Ok(TokenModel::At))
    } else if c == '=' {
        (advance_to(m, i + 1), Ok(TokenModel::Equals))
    } else if c == '-' {
        if i + 1 < s.len() && s[i + 1] == '>' {
            (advance_to(m, i + 2), Ok(TokenModel::RightArrow))
        } else if i + 1 < s.len() && is_digit(s[i + 1]) {
            let j = digit_run_end(s, i + 1);
            (advance_to(m, j), Ok(TokenModel::Number(s.subrange(i, j))))
        } else {
            (advance_to(m, i + 1), Ok(TokenModel::Operator(s.subrange(i, i + 1))))
        }
    } else {
        (m, Err(LexError::InvalidCharacter))
    }
}

/// One call of the lexer: whitespace is consumed first; at end of input the
/// indentation stack is unwound one `Dedent` per call before `EndOfInput`;
/// otherwise, if a layout decision is owed, the first non-whitespace
/// column of the new line is compared against the stack, emitting `Indent`,
/// `Dedent` (one per call), a mismatch error, or nothing; and only then is
/// the scanner consulted.
pub open spec fn spec_next(m: LexerModel) -> (LexerModel, Result<TokenModel, LexError>) {
    let m1 = skip_ws(m);
    if m1.cursor == m1.input.len() {
        if m1.stack.len() > 0 {
            (pop_level(m1), Ok(TokenModel::Dedent))
        } else {
            (m1, Ok(TokenModel::EndOfInput))
        }
    } else if m1.pending {
        let w = m1.col;
        if w > m1.top() {
            (
                LexerModel { stack: m1.stack.push(w), pending: false, ..m1 },
                Ok(TokenModel::Indent),
            )
        } else if w == m1.top() {
            spec_scan(LexerModel { pending: false, ..m1 })
        } else {
            let deeper = if m1.stack.len() >= 2 {
                m1.stack[m1.stack.len() - 2]
            } else {
                0
            };
            if w > deeper {
                (m1, Err(LexError::MismatchedIndentation))
            } else if w == deeper {
                (LexerModel { pending: false, ..pop_level(m1) }, Ok(TokenModel::Dedent))
            } else {
                (pop_level(m1), Ok(TokenModel::Dedent))
            }
        }
    } else {
        spec_scan(m1)
    }
}

/// The character under the cursor, if any.
pub open spec fn peek_spec(m: LexerModel) -> Option<char> {
    if m.cursor < m.input.len() {
        Some(m.input[m.cursor])
    } else {
        None
    }
}

/// The character one position past the cursor, if any.
pub open spec fn lookahead_spec(m: LexerModel) -> Option<char> {
    if m.cursor + 1 < m.input.len() {
        Some(m.input[m.cursor + 1])
    } else {
        None
    }
}

/// The layout components of the termination measure for repeated calls:
/// a pending layout decision is worth one extra step.
pub open spec fn pend_val(m: LexerModel) -> int {
    if m.pending {
        1int
    } else {
        0int
    }
}

pub proof fn lemma_position_bounds(s: Seq<char>, i: int)
    requires
        0 <= i,
    ensures
        0 <= line_start(s, i) <= i,
        0 <= newline_count(s, i) <= i,
    decreases i,
{
    if i > 0 {
        lemma_position_bounds(s, i - 1);
    }
}

/// Row and column bookkeeping is unchanged across a stretch of the input
/// that contains no newline.
pub proof fn lemma_no_newline_same_line(s: Seq<char>, i: int, j: int)
    requires
        0 <= i <= j,
        forall|k: int| i <= k < j ==> s[k] != '\n',
    ensures
        line_start(s, j) == line_start(s, i),
        newline_count(s, j) == newline_count(s, i),
    decreases j - i,
{
    if j > i {
        lemma_no_newline_same_line(s, i, j - 1);
    }
}

pub proof fn lemma_step_char(m: LexerModel)
    requires
        m.wf(),
        m.cursor < m.input.len(),
    ensures
        step_char(m).wf(),
        step_char(m).input == m.input,
        step_char(m).stack == m.stack,
        step_char(m).cursor == m.cursor + 1,
        m.pending ==> step_char(m).pending,
{
    lemma_position_bounds(m.input, m.cursor);
}

pub proof fn lemma_skip_ws(m: LexerModel)
    requires
        m.wf(),
    ensures
        ({
            let m1 = skip_ws(m);
            &&& m1.wf()
            &&& m1.input == m.input
            &&& m1.stack == m.stack
            &&& m.cursor <= m1.cursor <= m.input.len()
            &&& (m1.cursor == m.cursor ==> m1 == m)
            &&& (m1.cursor < m.input.len() ==> !is_layout(m.input[m1.cursor]))
            &&& (m.pending ==> m1.pending)
        }),
    decreases m.input.len() - m.cursor,
{
    if m.cursor < m.input.len() && is_layout(m.input[m.cursor]) {
        lemma_step_char(m);
        lemma_skip_ws(step_char(m));
    }
}

pub proof fn lemma_letter_run(s: Seq<char>, i: int)
    requires
        0 <= i <= s.len(),
    ensures
        ({
            let j = letter_run_end(s, i);
            &&& i <= j <= s.len()
            &&& forall|k: int| i <= k < j ==> is_letter(#[trigger] s[k])
            &&& (j < s.len() ==> !is_letter(s[j]))
        }),
    decreases s.len() - i,
{
    if i < s.len() && is_letter(s[i]) {
        lemma_letter_run(s, i + 1);
    }
}

pub proof fn lemma_digit_run(s: Seq<char>, i: int)
    requires
        0 <= i <= s.len(),
    ensures
        ({
            let j = digit_run_end(s, i);
            &&& i <= j <= s.len()
            &&& forall|k: int| i <= k < j ==> is_digit(#[trigger] s[k])
            &&& (j < s.len() ==> !is_digit(s[j]))
        }),
    decreases s.len() - i,
{
    if i < s.len() && is_digit(s[i]) {
        lemma_digit_run(s, i + 1);
    }
}

/// Advancing across newline-free characters preserves well-formedness.
pub proof fn lemma_advance_to(m: LexerModel, j: int)
    requires
        m.wf(),
        m.cursor <= j <= m.input.len(),
        forall|k: int| m.cursor <= k < j ==> m.input[k] != '\n',
    ensures
        advance_to(m, j).wf(),
{
    lemma_no_newline_same_line(m.input, m.cursor, j);
}

/// The scanner consumes at least one character, touches neither the stack
/// nor the pending-newline flag, never produces a layout token, and leaves
/// the state unchanged on a lexical error.
pub proof fn lemma_spec_scan(m: LexerModel)
    requires
        m.wf(),
        m.cursor < m.input.len(),
    ensures
        ({
            let (m2, r) = spec_scan(m);
            &&& m2.input == m.input
            &&& m2.stack == m.stack
            &&& m2.pending == m.pending
            &&& match r {
                Ok(t) => {
                    &&& m2.wf()
                    &&& m.cursor < m2.cursor <= m.input.len()
                    &&& !(t is Indent)
                    &&& !(t is Dedent)
                    &&& !(t is EndOfInput)
                },
                Err(_) => m2 == m,
            }
        }),
{
    let s = m.input;
    let i = m.cursor;
    let c = s[i];
    if is_letter(c) {
        lemma_letter_run(s, i);
        lemma_advance_to(m, letter_run_end(s, i));
    } else if is_digit(c) {
        lemma_digit_run(s, i);
        lemma_advance_to(m, digit_run_end(s, i));
    } else if c == '[' || c == ']' || c == '(' || c == ')' || c == ',' || c == ':' || c == '_'
        || c == '@' || c == '=' {
        lemma_advance_to(m, i + 1);
    } else if c == '-' {
        if i + 1 < s.len() && s[i + 1] == '>' {
            lemma_advance_to(m, i + 2);
        } else if i + 1 < s.len() && is_digit(s[i + 1]) {
            lemma_digit_run(s, i + 1);
            lemma_advance_to(m, digit_run_end(s, i + 1));
        } else {
            lemma_advance_to(m, i + 1);
        }
    }
}

/// One call of the lexer preserves well-formedness, moves the cursor only
/// forward, and changes the indentation stack exactly as the emitted token
/// says: one push per `Indent`, one pop per `Dedent`, no change otherwise,
/// with `EndOfInput` emitted only once the stack is fully drained. Every
/// emitted token other than `EndOfInput` shrinks the termination measure.
pub proof fn lemma_spec_next(m: LexerModel)
    requires
        m.wf(),
    ensures
        ({
            let (m2, r) = spec_next(m);
            &&& m2.wf()
            &&& m2.input == m.input
            &&& m.cursor <= m2.cursor <= m.input.len()
            &&& match r {
                Ok(t) => {
                    &&& (t is Indent ==> m2.stack.len() == m.stack.len() + 1 && m2.cursor
                        == skip_ws(m).cursor)
                    &&& (t is Dedent ==> m.stack.len() > 0 && m2.stack.len() == m.stack.len() - 1
                        && m2.cursor == skip_ws(m).cursor)
                    &&& (t is EndOfInput ==> m2.stack == m.stack && m.stack.len() == 0
                        && m2.cursor == m.input.len())
                    &&& (!(t is Indent) && !(t is Dedent) && !(t is EndOfInput)
                        ==> m2.stack == m.stack && m.cursor < m2.cursor)
                    &&& (!(t is EndOfInput) ==> m2.cursor > m.cursor || (m2.cursor == m.cursor
                        && pend_val(m2) < pend_val(m)) || (m2.cursor == m.cursor && pend_val(m2)
                        == pend_val(m) && m2.stack.len() < m.stack.len()))
                },
                Err(_) => true,
            }
        }),
{
    lemma_skip_ws(m);
    let m1 = skip_ws(m);
    lemma_position_bounds(m.input, m1.cursor);
    if m1.cursor == m1.input.len() {
    } else if m1.pending {
        let w = m1.col;
        if w > m1.top() {
        } else if w == m1.top() {
            lemma_spec_scan(LexerModel { pending: false, ..m1 });
        } else {
            assert(m1.stack.len() > 0);
        }
    } else {
        lemma_spec_scan(m1);
    }
}

/// The token stream of a lexer run from state `m`: repeated calls,
/// collecting each token, stopping inclusively at `EndOfInput` or
/// propagating the first error.
pub open spec fn spec_lex(m: LexerModel) -> Result<Seq<TokenModel>, LexError>
    decreases m.input.len() - m.cursor, pend_val(m), m.stack.len(),
        when m.wf()
        via spec_lex_decreases
{
    let (m2, r) = spec_next(m);
    match r {
        Ok(t) => if t is EndOfInput {
            Ok(seq![t])
        } else {
            match spec_lex(m2) {
                Ok(rest) => Ok(seq![t] + rest),
                Err(e) => Err(e),
            }
        },
        Err(e) => Err(e),
    }
}

#[via_fn]
proof fn spec_lex_decreases(m: LexerModel) {
    lemma_spec_next(m);
}

/// The token stream denoted by a complete input.
pub open spec fn spec_lex_all(s: Seq<char>) -> Result<Seq<TokenModel>, LexError> {
    spec_lex(init_model(s))
}

pub proof fn lemma_init_wf(s: Seq<char>)
    ensures
        init_model(s).wf(),
{
}

} // verus!

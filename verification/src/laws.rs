//! The laws of the lexer: properties that hold of every input, stated over
//! the specification-level state machine and proved once and for all.

use vstd::prelude::*;

use crate::model::{
    digit_run_end, init_model, lemma_init_wf, lemma_skip_ws, lemma_spec_next, lemma_spec_scan,
    lemma_step_char, lookahead_spec, pend_val, skip_ws, spec_lex, spec_lex_all, spec_next,
    spec_scan, step_char, LexerModel,
};
use crate::token::{classify_word, is_digit, is_keyword_text, is_layout, LexError, TokenModel};

verus! {

/// How many elements of `ts` equal `t`.
pub open spec fn count_matching(ts: Seq<TokenModel>, t: TokenModel) -> int
    decreases ts.len(),
{
    if ts.len() == 0 {
        0
    } else {
        count_matching(ts.drop_first(), t) + if ts[0] == t {
            1int
        } else {
            0int
        }
    }
}

proof fn lemma_count_cons(t0: TokenModel, rest: Seq<TokenModel>, t: TokenModel)
    ensures
        count_matching(seq![t0] + rest, t) == count_matching(rest, t) + if t0 == t {
            1int
        } else {
            0int
        },
{
    let ts = seq![t0] + rest;
    assert(ts.drop_first() =~= rest);
}

proof fn lemma_count_singleton(t0: TokenModel, t: TokenModel)
    ensures
        count_matching(seq![t0], t) == if t0 == t {
            1int
        } else {
            0int
        },
{
    assert(seq![t0].drop_first() =~= Seq::<TokenModel>::empty());
    assert(count_matching(Seq::<TokenModel>::empty(), t) == 0);
}

proof fn lemma_balance_from(m: LexerModel)
    requires
        m.wf(),
    ensures
        (match spec_lex(m) {
            Ok(ts) => count_matching(ts, TokenModel::Indent) + m.stack.len() == count_matching(
                ts,
                TokenModel::Dedent,
            ),
            Err(_) => true,
        }),
    decreases m.input.len() - m.cursor, pend_val(m), m.stack.len(),
{
    lemma_spec_next(m);
    let (m2, r) = spec_next(m);
    match r {
        Ok(t) => {
            if t is EndOfInput {
                lemma_count_singleton(t, TokenModel::Indent);
                lemma_count_singleton(t, TokenModel::Dedent);
            } else {
                lemma_balance_from(m2);
                match spec_lex(m2) {
                    Ok(rest) => {
                        lemma_count_cons(t, rest, TokenModel::Indent);
                        lemma_count_cons(t, rest, TokenModel::Dedent);
                    },
                    Err(_) => {},
                }
            }
        },
        Err(_) => {},
    }
}

/// Indentation stack balance: on any input for which lexing succeeds, the
/// token stream holds exactly as many `Indent` tokens as `Dedent` tokens —
/// the stack of open blocks starts empty and is drained to empty again by
/// the time `EndOfInput` is produced.
pub proof fn lemma_indent_dedent_balance(s: Seq<char>)
    ensures
        (match spec_lex_all(s) {
            Ok(ts) => count_matching(ts, TokenModel::Indent) == count_matching(
                ts,
                TokenModel::Dedent,
            ),
            Err(_) => true,
        }),
{
    lemma_init_wf(s);
    lemma_balance_from(init_model(s));
}

proof fn lemma_prefix_balance_from(m: LexerModel, k: int)
    requires
        m.wf(),
    ensures
        (match spec_lex(m) {
            Ok(ts) => 0 <= k <= ts.len() ==> count_matching(ts.take(k), TokenModel::Dedent)
                <= count_matching(ts.take(k), TokenModel::Indent) + m.stack.len(),
            Err(_) => true,
        }),
    decreases m.input.len() - m.cursor, pend_val(m), m.stack.len(),
{
    lemma_spec_next(m);
    let (m2, r) = spec_next(m);
    match r {
        Ok(t) => {
            if t is EndOfInput {
                if 0 <= k <= 1 {
                    assert(seq![t].take(k).len() == k);
                    if k == 1 {
                        lemma_count_singleton(t, TokenModel::Indent);
                        lemma_count_singleton(t, TokenModel::Dedent);
                        assert(seq![t].take(1) =~= seq![t]);
                    } else {
                        assert(count_matching(seq![t].take(0), TokenModel::Indent) == 0);
                        assert(count_matching(seq![t].take(0), TokenModel::Dedent) == 0);
                    }
                }
            } else {
                lemma_prefix_balance_from(m2, k - 1);
                match spec_lex(m2) {
                    Ok(rest) => {
                        let ts = seq![t] + rest;
                        if 1 <= k <= ts.len() {
                            assert(ts.take(k) =~= seq![t] + rest.take(k - 1));
                            lemma_count_cons(t, rest.take(k - 1), TokenModel::Indent);
                            lemma_count_cons(t, rest.take(k - 1), TokenModel::Dedent);
                        } else if k == 0 {
                            assert(count_matching(ts.take(0), TokenModel::Indent) == 0);
                            assert(count_matching(ts.take(0), TokenModel::Dedent) == 0);
                        }
                    },
                    Err(_) => {},
                }
            }
        },
        Err(_) => {},
    }
}

/// Well-nesting: on any input for which lexing succeeds, no prefix of the
/// token stream closes more blocks than it has opened — the `Dedent` count
/// of every prefix stays at or below its `Indent` count. Together with the
/// overall balance this makes `Indent` and `Dedent` well-nested, as the
/// consumer of the stream expects.
pub proof fn lemma_dedents_never_exceed_indents(s: Seq<char>, k: int)
    ensures
        (match spec_lex_all(s) {
            Ok(ts) => 0 <= k <= ts.len() ==> count_matching(ts.take(k), TokenModel::Dedent)
                <= count_matching(ts.take(k), TokenModel::Indent),
            Err(_) => true,
        }),
{
    lemma_init_wf(s);
    lemma_prefix_balance_from(init_model(s), k);
}

proof fn lemma_end_of_input_from(m: LexerModel)
    requires
        m.wf(),
    ensures
        (match spec_lex(m) {
            Ok(ts) => {
                &&& ts.len() > 0
                &&& ts.last() is EndOfInput
                &&& forall|k: int| 0 <= k < ts.len() - 1 ==> !((#[trigger] ts[k]) is EndOfInput)
            },
            Err(_) => true,
        }),
    decreases m.input.len() - m.cursor, pend_val(m), m.stack.len(),
{
    lemma_spec_next(m);
    let (m2, r) = spec_next(m);
    match r {
        Ok(t) => {
            if !(t is EndOfInput) {
                lemma_end_of_input_from(m2);
            }
        },
        Err(_) => {},
    }
}

/// Termination marker: on any input for which lexing succeeds, the token
/// stream is non-empty and `EndOfInput` appears exactly once, as its final
/// element.
pub proof fn lemma_end_of_input_is_final(s: Seq<char>)
    ensures
        (match spec_lex_all(s) {
            Ok(ts) => {
                &&& ts.len() > 0
                &&& ts.last() is EndOfInput
                &&& forall|k: int| 0 <= k < ts.len() - 1 ==> !((#[trigger] ts[k]) is EndOfInput)
            },
            Err(_) => true,
        }),
{
    lemma_init_wf(s);
    lemma_end_of_input_from(init_model(s));
}

/// Monotonic columns within a level: while a block is open, a line whose
/// first non-whitespace character sits exactly at the width of the
/// innermost open level emits no structural token — the layout decision
/// resolves to nothing, the stack of open levels is untouched, and sibling
/// statements at the same width stay flat in the stream.
pub proof fn lemma_same_width_stays_flat(m: LexerModel)
    requires
        m.wf(),
        skip_ws(m).pending,
        skip_ws(m).cursor < m.input.len(),
        skip_ws(m).col == skip_ws(m).top(),
    ensures
        ({
            let (m2, r) = spec_next(m);
            &&& m2.stack == m.stack
            &&& (r matches Ok(t) ==> !(t is Indent) && !(t is Dedent))
        }),
{
    lemma_skip_ws(m);
    lemma_spec_scan(LexerModel { pending: false, ..skip_ws(m) });
}

/// Sign disambiguation: at a `-`, one character of lookahead alone decides
/// the classification, independently of any surrounding context — `>`
/// completes an arrow, a digit makes the `-` the sign of a single number
/// literal, and anything else (including end of input) leaves a
/// single-character operator.
pub proof fn lemma_minus_disambiguation(m: LexerModel)
    requires
        m.wf(),
        m.cursor < m.input.len(),
        m.input[m.cursor] == '-',
    ensures
        (match lookahead_spec(m) {
            Some(la) => {
                &&& (la == '>' ==> spec_scan(m).1 == Ok::<TokenModel, LexError>(
                    TokenModel::RightArrow,
                ))
                &&& (is_digit(la) ==> spec_scan(m).1 == Ok::<TokenModel, LexError>(
                    TokenModel::Number(
                        m.input.subrange(m.cursor, digit_run_end(m.input, m.cursor + 1)),
                    ),
                ))
                &&& (la != '>' && !is_digit(la) ==> spec_scan(m).1 == Ok::<TokenModel, LexError>(
                    TokenModel::Operator(m.input.subrange(m.cursor, m.cursor + 1)),
                ))
            },
            None => spec_scan(m).1 == Ok::<TokenModel, LexError>(
                TokenModel::Operator(m.input.subrange(m.cursor, m.cursor + 1)),
            ),
        }),
{
}

proof fn lemma_no_invalid_number_from(m: LexerModel)
    requires
        m.wf(),
    ensures
        spec_lex(m) != Err::<Seq<TokenModel>, LexError>(LexError::InvalidNumber),
    decreases m.input.len() - m.cursor, pend_val(m), m.stack.len(),
{
    lemma_spec_next(m);
    let (m2, r) = spec_next(m);
    match r {
        Ok(t) => {
            if !(t is EndOfInput) {
                lemma_no_invalid_number_from(m2);
            }
        },
        Err(_) => {},
    }
}

/// The numeric scan is entered only after a digit has been seen, with or
/// without a sign in front of it, so it can never match zero digits: no
/// input produces the `InvalidNumber` error.
pub proof fn lemma_invalid_number_unreachable(s: Seq<char>)
    ensures
        spec_lex_all(s) != Err::<Seq<TokenModel>, LexError>(LexError::InvalidNumber),
{
    lemma_init_wf(s);
    lemma_no_invalid_number_from(init_model(s));
}

/// The fixed single-character structural symbols.
pub open spec fn is_symbol_char(c: char) -> bool {
    ||| c == '['
    ||| c == ']'
    ||| c == '('
    ||| c == ')'
    ||| c == ','
    ||| c == ':'
    ||| c == '_'
    ||| c == '@'
    ||| c == '='
}

/// The structural token denoted by a single-character symbol.
pub open spec fn symbol_token_of(c: char) -> TokenModel {
    if c == '[' {
        TokenModel::LBracket
    } else if c == ']' {
        TokenModel::RBracket
    } else if c == '(' {
        TokenModel::LParen
    } else if c == ')' {
        TokenModel::RParen
    } else if c == ',' {
        TokenModel::Comma
    } else if c == ':' {
        TokenModel::Colon
    } else if c == '_' {
        TokenModel::Underscore
    } else if c == '@' {
        TokenModel::At
    } else {
        TokenModel::Equals
    }
}

/// Whether a token is one of the single-character structural tokens.
pub open spec fn is_symbol_token(t: TokenModel) -> bool {
    ||| t is LBracket
    ||| t is RBracket
    ||| t is LParen
    ||| t is RParen
    ||| t is Comma
    ||| t is Colon
    ||| t is Underscore
    ||| t is At
    ||| t is Equals
}

/// The subsequence of single-character structural tokens in a stream.
pub open spec fn symbol_tokens(ts: Seq<TokenModel>) -> Seq<TokenModel>
    decreases ts.len(),
{
    if ts.len() == 0 {
        Seq::empty()
    } else if is_symbol_token(ts[0]) {
        seq![ts[0]] + symbol_tokens(ts.drop_first())
    } else {
        symbol_tokens(ts.drop_first())
    }
}

/// The structural tokens denoted by the symbol characters of `s` from
/// position `i` on, in input order.
pub open spec fn symbol_tokens_of_chars(s: Seq<char>, i: int) -> Seq<TokenModel>
    decreases s.len() - i,
{
    if i < s.len() {
        if is_symbol_char(s[i]) {
            seq![symbol_token_of(s[i])] + symbol_tokens_of_chars(s, i + 1)
        } else {
            symbol_tokens_of_chars(s, i + 1)
        }
    } else {
        Seq::empty()
    }
}

proof fn lemma_symbol_tokens_cons(t: TokenModel, rest: Seq<TokenModel>)
    ensures
        is_symbol_token(t) ==> symbol_tokens(seq![t] + rest) == seq![t] + symbol_tokens(rest),
        !is_symbol_token(t) ==> symbol_tokens(seq![t] + rest) == symbol_tokens(rest),
{
    let ts = seq![t] + rest;
    assert(ts.drop_first() =~= rest);
}

proof fn lemma_symbol_tokens_singleton(t: TokenModel)
    ensures
        is_symbol_token(t) ==> symbol_tokens(seq![t]) == seq![t],
        !is_symbol_token(t) ==> symbol_tokens(seq![t]) == Seq::<TokenModel>::empty(),
{
    assert(seq![t].drop_first() =~= Seq::<TokenModel>::empty());
    assert(symbol_tokens(Seq::<TokenModel>::empty()) == Seq::<TokenModel>::empty());
    if is_symbol_token(t) {
        assert(seq![t] + Seq::<TokenModel>::empty() =~= seq![t]);
    }
}

/// Skipped whitespace denotes no structural token.
proof fn lemma_symbols_skip_ws(m: LexerModel)
    requires
        m.wf(),
    ensures
        symbol_tokens_of_chars(m.input, skip_ws(m).cursor) == symbol_tokens_of_chars(
            m.input,
            m.cursor,
        ),
    decreases m.input.len() - m.cursor,
{
    if m.cursor < m.input.len() && is_layout(m.input[m.cursor]) {
        lemma_step_char(m);
        lemma_symbols_skip_ws(step_char(m));
    }
}

proof fn lemma_round_trip_from(m: LexerModel)
    requires
        m.wf(),
        forall|i: int|
            m.cursor <= i < m.input.len() ==> is_layout(#[trigger] m.input[i]) || is_symbol_char(
                m.input[i],
            ),
    ensures
        (match spec_lex(m) {
            Ok(ts) => {
                &&& symbol_tokens(ts) == symbol_tokens_of_chars(m.input, m.cursor)
                &&& forall|k: int|
                    0 <= k < ts.len() ==> is_symbol_token(#[trigger] ts[k]) || ts[k] is Indent
                        || ts[k] is Dedent || ts[k] is EndOfInput
            },
            Err(_) => true,
        }),
    decreases m.input.len() - m.cursor, pend_val(m), m.stack.len(),
{
    lemma_spec_next(m);
    lemma_skip_ws(m);
    lemma_symbols_skip_ws(m);
    let m1 = skip_ws(m);
    let (m2, r) = spec_next(m);
    match r {
        Ok(t) => {
            if t is EndOfInput {
                lemma_symbol_tokens_singleton(t);
                assert(symbol_tokens_of_chars(m.input, m1.cursor) == Seq::<TokenModel>::empty());
            } else {
                lemma_round_trip_from(m2);
                match spec_lex(m2) {
                    Ok(rest) => {
                        lemma_symbol_tokens_cons(t, rest);
                        assert((seq![t] + rest).drop_first() =~= rest);
                        if t is Indent || t is Dedent {
                            assert(symbol_tokens_of_chars(m.input, m2.cursor)
                                == symbol_tokens_of_chars(m.input, m.cursor));
                        } else {
                            let c = m.input[m1.cursor];
                            assert(is_symbol_char(c));
                            assert(t == symbol_token_of(c) && m2.cursor == m1.cursor + 1);
                            assert(symbol_tokens_of_chars(m.input, m1.cursor) == seq![
                                symbol_token_of(c),
                            ] + symbol_tokens_of_chars(m.input, m1.cursor + 1));
                        }
                        assert(forall|k: int|
                            0 <= k < (seq![t] + rest).len() ==> is_symbol_token(
                                #[trigger] (seq![t] + rest)[k],
                            ) || (seq![t] + rest)[k] is Indent || (seq![t] + rest)[k] is Dedent
                                || (seq![t] + rest)[k] is EndOfInput);
                    },
                    Err(_) => {},
                }
            }
        },
        Err(_) => {},
    }
}

/// Round-trip coverage: on an input made only of whitespace and the
/// single-character structural symbols, the lexical tokens of a successful
/// lex are exactly the structural tokens of the non-whitespace characters,
/// one per character and in input order — the stream reconstructs the
/// tokenization boundaries of the input — and every other token in the
/// stream is a synthesized `Indent`, `Dedent` or the final `EndOfInput`.
pub proof fn lemma_structural_round_trip(s: Seq<char>)
    requires
        forall|i: int|
            0 <= i < s.len() ==> is_layout(#[trigger] s[i]) || is_symbol_char(s[i]),
    ensures
        (match spec_lex_all(s) {
            Ok(ts) => {
                &&& symbol_tokens(ts) == symbol_tokens_of_chars(s, 0)
                &&& forall|k: int|
                    0 <= k < ts.len() ==> is_symbol_token(#[trigger] ts[k]) || ts[k] is Indent
                        || ts[k] is Dedent || ts[k] is EndOfInput
            },
            Err(_) => true,
        }),
{
    lemma_init_wf(s);
    lemma_round_trip_from(init_model(s));
}

/// Keyword precedence: a scanned word is a keyword token exactly when its
/// full text is a byte-exact, case-sensitive match of one of the
/// recognized spellings; any other word is a `VarName` carrying its text,
/// and no keyword spelling is ever classified as a `VarName`.
pub proof fn lemma_keyword_precedence(text: Seq<char>)
    ensures
        is_keyword_text(text) ==> !(classify_word(text) is VarName),
        !is_keyword_text(text) ==> classify_word(text) == TokenModel::VarName(text),
{
}

} // verus!

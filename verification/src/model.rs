use vstd::prelude::*;

use crate::token::TokenView;

verus! {

/// A character the lexer skips without producing a token: space, tab,
/// newline, carriage return.
pub open spec fn is_skippable(c: char) -> bool {
    c == ' ' || c == '\t' || c == '\n' || c == '\r'
}

/// A character that may start or continue an identifier: ASCII-alphabetic.
pub open spec fn is_identifier_char(c: char) -> bool {
    ('a' <= c && c <= 'z') || ('A' <= c && c <= 'Z')
}

/// Runtime check for [`is_skippable`].
pub fn skippable(c: char) -> (r: bool)
    ensures
        r == is_skippable(c),
{
    c == ' ' || c == '\t' || c == '\n' || c == '\r'
}

/// Runtime check for [`is_identifier_char`].
pub fn identifier_char(c: char) -> (r: bool)
    ensures
        r == is_identifier_char(c),
{
    ('a' <= c && c <= 'z') || ('A' <= c && c <= 'Z')
}

/// Length of the maximal run of identifier characters at the head of `s`.
pub open spec fn identifier_run(s: Seq<char>) -> nat
    decreases s.len(),
{
    if s.len() > 0 && is_identifier_char(s[0]) {
        1 + identifier_run(s.skip(1))
    } else {
        0
    }
}

/// What one step of the lexer produces on input `s`: the first token
/// together with the unconsumed remainder, or the first invalid character.
/// Skippable characters are consumed silently; exhaustion yields the
/// `EndOfInput` sentinel.
pub open spec fn next_token_of(s: Seq<char>) -> Result<(TokenView, Seq<char>), char>
    decreases s.len(),
{
    if s.len() == 0 {
        Ok((TokenView::EndOfInput, s))
    } else if is_skippable(s[0]) {
        next_token_of(s.skip(1))
    } else if s[0] == ',' {
        Ok((TokenView::Comma, s.skip(1)))
    } else if s[0] == '[' {
        Ok((TokenView::BracketOpen, s.skip(1)))
    } else if s[0] == ']' {
        Ok((TokenView::BracketClose, s.skip(1)))
    } else if is_identifier_char(s[0]) {
        Ok(
            (
                TokenView::ListItem(s.take(identifier_run(s) as int)),
                s.skip(identifier_run(s) as int),
            ),
        )
    } else {
        Err(s[0])
    }
}

/// What the whole lexer produces on input `s`: the complete token sequence
/// ending in `EndOfInput`, or the first invalid character. All-or-nothing:
/// an invalid character anywhere discards every token seen before it.
pub open spec fn tokens_of(s: Seq<char>) -> Result<Seq<TokenView>, char>
    decreases s.len(),
    via tokens_of_decreases
{
    match next_token_of(s) {
        Ok((tok, rest)) => if tok is EndOfInput {
            Ok(seq![tok])
        } else {
            match tokens_of(rest) {
                Ok(toks) => Ok(seq![tok] + toks),
                Err(c) => Err(c),
            }
        },
        Err(c) => Err(c),
    }
}

#[via_fn]
proof fn tokens_of_decreases(s: Seq<char>) {
    lemma_next_token_progress(s);
}

/// The identifier run never reaches past the end of the input, and is
/// non-empty exactly when the input starts with an identifier character.
pub proof fn lemma_identifier_run_bounds(s: Seq<char>)
    ensures
        identifier_run(s) <= s.len(),
        identifier_run(s) >= 1 <==> s.len() > 0 && is_identifier_char(s[0]),
    decreases s.len(),
{
    if s.len() > 0 && is_identifier_char(s[0]) {
        lemma_identifier_run_bounds(s.skip(1));
    }
}

/// Every character inside the identifier run is an identifier character,
/// and the run stops at the first character that is not one.
pub proof fn lemma_identifier_run_chars(s: Seq<char>)
    ensures
        identifier_run(s) <= s.len(),
        forall|i: int| 0 <= i < identifier_run(s) ==> is_identifier_char(#[trigger] s[i]),
        identifier_run(s) < s.len() ==> !is_identifier_char(s[identifier_run(s) as int]),
    decreases s.len(),
{
    lemma_identifier_run_bounds(s);
    if s.len() > 0 && is_identifier_char(s[0]) {
        lemma_identifier_run_chars(s.skip(1));
        assert forall|i: int| 0 <= i < identifier_run(s) implies is_identifier_char(
            #[trigger] s[i],
        ) by {
            if i >= 1 {
                assert(s.skip(1)[i - 1] == s[i]);
            }
        }
        if identifier_run(s) < s.len() {
            assert(s.skip(1)[identifier_run(s) - 1] == s[identifier_run(s) as int]);
        }
    }
}

/// A prefix made of identifier characters never outruns the identifier run.
pub proof fn lemma_identifier_run_at_least(s: Seq<char>, k: int)
    requires
        0 <= k <= s.len(),
        forall|i: int| 0 <= i < k ==> is_identifier_char(#[trigger] s[i]),
    ensures
        identifier_run(s) >= k,
    decreases k,
{
    if k > 0 {
        assert forall|i: int| 0 <= i < k - 1 implies is_identifier_char(
            #[trigger] s.skip(1)[i],
        ) by {
            assert(s.skip(1)[i] == s[i + 1]);
        }
        lemma_identifier_run_at_least(s.skip(1), k - 1);
    }
}

/// One lexer step never lengthens the input, consumes at least one character
/// whenever it produces a token other than `EndOfInput`, and produces
/// `EndOfInput` only with nothing left over.
pub proof fn lemma_next_token_progress(s: Seq<char>)
    ensures
        next_token_of(s) matches Ok((tok, rest)) ==> {
            &&& rest.len() <= s.len()
            &&& (tok !is EndOfInput ==> rest.len() < s.len())
            &&& (tok is EndOfInput ==> rest.len() == 0)
        },
    decreases s.len(),
{
    if s.len() == 0 {
    } else if is_skippable(s[0]) {
        lemma_next_token_progress(s.skip(1));
    } else if is_identifier_char(s[0]) {
        lemma_identifier_run_bounds(s);
    }
}

/// Skippable characters at the head of the input do not change the next token.
pub proof fn lemma_next_token_skip_prefix(w: Seq<char>, s: Seq<char>)
    requires
        forall|i: int| 0 <= i < w.len() ==> is_skippable(#[trigger] w[i]),
    ensures
        next_token_of(w + s) == next_token_of(s),
    decreases w.len(),
{
    if w.len() == 0 {
        assert(w + s =~= s);
    } else {
        assert((w + s)[0] == w[0]);
        assert((w + s).skip(1) =~= w.skip(1) + s);
        lemma_next_token_skip_prefix(w.skip(1), s);
    }
}

/// Inputs on which one lexer step agrees produce the same full sequence.
pub proof fn lemma_tokens_of_same_step(a: Seq<char>, b: Seq<char>)
    requires
        next_token_of(a) == next_token_of(b),
    ensures
        tokens_of(a) == tokens_of(b),
{
}

} // verus!

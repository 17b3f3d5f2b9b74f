use vstd::prelude::*;

use crate::model::identifier_run;
use crate::model::is_identifier_char;
use crate::model::is_skippable;
use crate::model::lemma_identifier_run_at_least;
use crate::model::lemma_identifier_run_bounds;
use crate::model::lemma_identifier_run_chars;
use crate::model::lemma_next_token_progress;
use crate::model::lemma_next_token_skip_prefix;
use crate::model::lemma_tokens_of_same_step;
use crate::model::next_token_of;
use crate::model::tokens_of;
use crate::token::TokenView;

verus! {

/// Inputs made of nothing but whitespace — the empty input included —
/// tokenize to exactly the `EndOfInput` sentinel and nothing else.
pub proof fn lemma_whitespace_only(s: Seq<char>)
    requires
        forall|i: int| 0 <= i < s.len() ==> is_skippable(#[trigger] s[i]),
    ensures
        tokens_of(s) == Ok::<_, char>(seq![TokenView::EndOfInput]),
{
    let empty = Seq::<char>::empty();
    assert(s + empty =~= s);
    lemma_next_token_skip_prefix(s, empty);
    lemma_tokens_of_same_step(s, empty);
}

/// An input holding a single character that is not whitespace, not one of
/// the delimiters `,` `[` `]`, and not alphabetic fails with exactly that
/// character.
pub proof fn lemma_single_invalid_character(c: char)
    requires
        !is_skippable(c),
        c != ',',
        c != '[',
        c != ']',
        !is_identifier_char(c),
    ensures
        tokens_of(seq![c]) == Err::<Seq<TokenView>, char>(c),
{
    assert(seq![c][0] == c);
}

/// Every successful tokenization ends in `EndOfInput`, and that sentinel
/// appears nowhere earlier in the sequence.
pub proof fn lemma_end_of_input_sentinel(s: Seq<char>)
    ensures
        tokens_of(s) matches Ok(toks) ==> {
            &&& toks.len() >= 1
            &&& toks.last() is EndOfInput
            &&& forall|i: int| 0 <= i < toks.len() - 1 ==> !(#[trigger] toks[i] is EndOfInput)
        },
    decreases s.len(),
{
    lemma_next_token_progress(s);
    match next_token_of(s) {
        Ok((tok, rest)) => {
            if tok !is EndOfInput {
                lemma_end_of_input_sentinel(rest);
                match tokens_of(rest) {
                    Ok(sub) => {
                        let toks = seq![tok] + sub;
                        assert(toks.last() == sub.last());
                        assert forall|i: int| 0 <= i < toks.len() - 1 implies !(
                        #[trigger] toks[i] is EndOfInput) by {
                            if i > 0 {
                                assert(toks[i] == sub[i - 1]);
                            }
                        }
                    },
                    Err(_) => {},
                }
            }
        },
        Err(_) => {},
    }
}

/// Classification is insensitive to whitespace: splicing any run of
/// whitespace into the input at any position — except in the middle of an
/// identifier, which it would split in two — changes neither the token
/// sequence nor the failure.
pub proof fn lemma_whitespace_insertion(s: Seq<char>, w: Seq<char>, i: int)
    requires
        0 <= i <= s.len(),
        forall|j: int| 0 <= j < w.len() ==> is_skippable(#[trigger] w[j]),
        !(0 < i < s.len() && is_identifier_char(s[i - 1]) && is_identifier_char(s[i])),
    ensures
        tokens_of(s.take(i) + w + s.skip(i)) == tokens_of(s),
    decreases s.len(),
{
    let u = s.take(i) + w + s.skip(i);
    if w.len() == 0 {
        assert(u =~= s);
    } else if i == 0 {
        assert(u =~= w + s);
        lemma_next_token_skip_prefix(w, s);
        lemma_tokens_of_same_step(u, s);
    } else {
        let c = s[0];
        assert(u[0] == c);
        let st = s.skip(1);
        let ut = u.skip(1);
        if is_skippable(c) {
            assert(ut =~= st.take(i - 1) + w + st.skip(i - 1));
            assert(i - 1 > 0 && i - 1 < st.len() ==> st[i - 2] == s[i - 1] && st[i - 1] == s[i]);
            lemma_whitespace_insertion(st, w, i - 1);
            lemma_tokens_of_same_step(u, ut);
            lemma_tokens_of_same_step(s, st);
        } else if c == ',' || c == '[' || c == ']' {
            assert(ut =~= st.take(i - 1) + w + st.skip(i - 1));
            assert(i - 1 > 0 && i - 1 < st.len() ==> st[i - 2] == s[i - 1] && st[i - 1] == s[i]);
            lemma_whitespace_insertion(st, w, i - 1);
        } else if is_identifier_char(c) {
            lemma_identifier_run_bounds(s);
            lemma_identifier_run_chars(s);
            let n = identifier_run(s) as int;
            if i < n {
                assert(is_identifier_char(s[i - 1]));
                assert(is_identifier_char(s[i]));
            } else {
                assert forall|j: int| 0 <= j < n implies is_identifier_char(
                    #[trigger] u[j],
                ) by {
                    assert(u[j] == s[j]);
                }
                lemma_identifier_run_at_least(u, n);
                lemma_identifier_run_chars(u);
                if n < i {
                    assert(n < s.len());
                    assert(u[n] == s[n]);
                    assert(!is_identifier_char(u[n]));
                } else {
                    assert(u[n] == w[0]);
                    assert(!is_identifier_char(u[n]));
                }
                assert(identifier_run(u) == n);
                assert(u.take(n) =~= s.take(n));
                let sr = s.skip(n);
                let ur = u.skip(n);
                assert(ur =~= sr.take(i - n) + w + sr.skip(i - n));
                assert(i - n > 0 && i - n < sr.len() ==> sr[i - n - 1] == s[i - 1] && sr[i - n]
                    == s[i]);
                lemma_whitespace_insertion(sr, w, i - n);
                assert(next_token_of(u) == Ok::<_, char>(
                    (TokenView::ListItem(s.take(n)), ur),
                ));
                assert(next_token_of(s) == Ok::<_, char>(
                    (TokenView::ListItem(s.take(n)), sr),
                ));
            }
        } else {
            assert(next_token_of(u) == Err::<(TokenView, Seq<char>), char>(c));
            assert(next_token_of(s) == Err::<(TokenView, Seq<char>), char>(c));
        }
    }
}

} // verus!

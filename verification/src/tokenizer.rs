use vstd::prelude::*;

use crate::cursor::Cursor;
use crate::model::identifier_char;
use crate::model::identifier_run;
use crate::model::is_identifier_char;
use crate::model::lemma_identifier_run_at_least;
use crate::model::lemma_identifier_run_bounds;
use crate::model::lemma_identifier_run_chars;
use crate::model::lemma_next_token_progress;
use crate::model::next_token_of;
use crate::model::skippable;
use crate::model::tokens_of;
use crate::token::Token;
use crate::token::TokenView;
use crate::token::TokenizeError;
use crate::token::token_views;

verus! {

/// The tokenizer: drives a [`Cursor`] over the input and classifies each
/// significant character into a token of the list grammar.
pub struct ListTokenizer<'a> {
    cursor: Cursor<'a>,
}

impl<'a> ListTokenizer<'a> {
    /// The underlying cursor is well-formed.
    pub closed spec fn wf(self) -> bool {
        self.cursor.wf()
    }

    /// The characters not yet consumed.
    pub closed spec fn remaining(self) -> Seq<char> {
        self.cursor.remaining()
    }

    /// Makes a tokenizer standing at the start of `input`.
    pub fn new(input: &'a str) -> (t: ListTokenizer<'a>)
        ensures
            t.wf(),
            t.remaining() == input@,
    {
        ListTokenizer { cursor: Cursor::new(input) }
    }

    /// Produces the next token: skips whitespace silently, emits `,` `[` `]`
    /// as single-character tokens, accumulates a maximal alphabetic run into
    /// a `ListItem`, emits `EndOfInput` at exhaustion, and fails on the
    /// first character that can start no token.
    pub fn next_token(&mut self) -> (r: Result<Token, TokenizeError>)
        requires
            old(self).wf(),
        ensures
            final(self).wf(),
            (match r {
                Ok(tok) => next_token_of(old(self).remaining()) == Ok::<_, char>(
                    (tok@, final(self).remaining()),
                ),
                Err(e) => next_token_of(old(self).remaining()) == Err::<
                    (TokenView, Seq<char>),
                    char,
                >(e.offending()),
            }),
    {
        loop
            invariant
                self.wf(),
                next_token_of(self.remaining()) == next_token_of(old(self).remaining()),
            decreases self.remaining().len(),
        {
            match self.cursor.peek() {
                None => {
                    return Ok(Token::EndOfInput);
                },
                Some(c) => {
                    if skippable(c) {
                        self.cursor.advance();
                    } else if c == ',' {
                        self.cursor.advance();
                        return Ok(Token::Comma);
                    } else if c == '[' {
                        self.cursor.advance();
                        return Ok(Token::BracketOpen);
                    } else if c == ']' {
                        self.cursor.advance();
                        return Ok(Token::BracketClose);
                    } else if identifier_char(c) {
                        return Ok(self.read_identifier());
                    } else {
                        self.cursor.advance();
                        return Err(TokenizeError::InvalidCharacter(c));
                    }
                },
            }
        }
    }

    /// Accumulates the maximal run of identifier characters at the cursor
    /// into a `ListItem`, leaving the first character past the run
    /// unconsumed.
    fn read_identifier(&mut self) -> (tok: Token)
        requires
            old(self).wf(),
            old(self).remaining().len() > 0,
            is_identifier_char(old(self).remaining()[0]),
        ensures
            final(self).wf(),
            next_token_of(old(self).remaining()) == Ok::<_, char>(
                (tok@, final(self).remaining()),
            ),
    {
        let ghost text = self.cursor.text();
        let ghost rem = self.cursor.remaining();
        let ghost run = identifier_run(rem);
        let start = self.cursor.position();
        proof {
            self.cursor.lemma_view();
            lemma_identifier_run_bounds(rem);
            lemma_identifier_run_chars(rem);
        }
        self.cursor.advance();
        loop
            invariant
                self.cursor.wf(),
                self.cursor.text() == text,
                start as int == text.len() - rem.len(),
                rem == text.skip(start as int),
                run == identifier_run(rem),
                start + 1 <= self.cursor.spec_position() <= text.len(),
                self.cursor.spec_position() - start <= run,
            ensures
                self.cursor.wf(),
                self.cursor.text() == text,
                self.cursor.spec_position() - start == run,
            decreases text.len() - self.cursor.spec_position(),
        {
            proof {
                self.cursor.lemma_view();
                lemma_identifier_run_chars(rem);
                assert(self.cursor.remaining() =~= rem.skip(
                    self.cursor.spec_position() - start as int,
                ));
            }
            let ghost k = self.cursor.spec_position() - start as int;
            match self.cursor.peek() {
                None => {
                    proof {
                        assert(k == rem.len());
                    }
                    break ;
                },
                Some(d) => {
                    if identifier_char(d) {
                        proof {
                            assert(d == rem[k]);
                            lemma_identifier_run_at_least(rem, k + 1);
                        }
                        self.cursor.advance();
                    } else {
                        proof {
                            assert(d == rem[k]);
                            assert(k >= run) by {
                                if k < run {
                                    assert(is_identifier_char(rem[k]));
                                }
                            }
                        }
                        break ;
                    }
                },
            }
        }
        let end = self.cursor.position();
        let item = self.cursor.slice_to_string(start, end);
        proof {
            self.cursor.lemma_view();
            assert(item@ =~= rem.take(run as int));
            assert(self.cursor.remaining() =~= rem.skip(run as int));
        }
        Token::ListItem(item)
    }

    /// Tokenizes everything the cursor still holds: the complete token
    /// sequence terminated by `EndOfInput`, or the first invalid character.
    /// All-or-nothing: an invalid character anywhere discards every token
    /// classified before it.
    pub fn tokenize(&mut self) -> (r: Result<Vec<Token>, TokenizeError>)
        requires
            old(self).wf(),
        ensures
            final(self).wf(),
            (match r {
                Ok(tokens) => tokens_of(old(self).remaining()) == Ok::<_, char>(
                    token_views(tokens@),
                ),
                Err(e) => tokens_of(old(self).remaining()) == Err::<Seq<TokenView>, char>(
                    e.offending(),
                ),
            }),
    {
        let mut tokens: Vec<Token> = Vec::new();
        loop
            invariant
                self.wf(),
                (match tokens_of(self.remaining()) {
                    Ok(ts) => tokens_of(old(self).remaining()) == Ok::<_, char>(
                        token_views(tokens@) + ts,
                    ),
                    Err(c) => tokens_of(old(self).remaining()) == Err::<Seq<TokenView>, char>(c),
                }),
            decreases self.remaining().len(),
        {
            let ghost rem = self.remaining();
            let ghost toks0 = tokens@;
            match self.next_token() {
                Ok(tok) => {
                    let ghost tv = tok@;
                    let is_end = matches!(tok, Token::EndOfInput);
                    tokens.push(tok);
                    proof {
                        lemma_next_token_progress(rem);
                        assert(token_views(tokens@) =~= token_views(toks0).push(tv));
                    }
                    if is_end {
                        proof {
                            assert(token_views(tokens@) =~= token_views(toks0) + seq![tv]);
                        }
                        return Ok(tokens);
                    } else {
                        proof {
                            if tokens_of(self.remaining()) is Ok {
                                let ts = tokens_of(self.remaining())->Ok_0;
                                assert(token_views(tokens@) + ts =~= token_views(toks0) + (
                                seq![tv] + ts));
                            }
                        }
                    }
                },
                Err(e) => {
                    return Err(e);
                },
            }
        }
    }
}

/// Tokenizes `input` in one call: the complete token sequence terminated by
/// `EndOfInput`, or the first invalid character.
pub fn list_tokenizer(input: &str) -> (r: Result<Vec<Token>, TokenizeError>)
    ensures
        (match r {
            Ok(tokens) => tokens_of(input@) == Ok::<_, char>(token_views(tokens@)),
            Err(e) => tokens_of(input@) == Err::<Seq<TokenView>, char>(e.offending()),
        }),
{
    let mut tokenizer = ListTokenizer::new(input);
    tokenizer.tokenize()
}

} // verus!

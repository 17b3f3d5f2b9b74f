//! A verified lexical analyzer for a minimal list grammar: comma-separated
//! alphabetic identifiers enclosed in square brackets, such as `[foo, bar]`.
//!
//! The lexer turns an input string into a sequence of [`Token`]s terminated
//! by a single [`Token::EndOfInput`] sentinel, or fails on the first
//! character that can start no token. Bracket balance is deliberately not
//! checked here: that is a grammar-level concern for a separate consumer.

mod cursor;
mod laws;
mod model;
mod token;
mod tokenizer;

pub use cursor::Cursor;
pub use laws::lemma_end_of_input_sentinel;
pub use laws::lemma_single_invalid_character;
pub use laws::lemma_whitespace_insertion;
pub use laws::lemma_whitespace_only;
pub use model::identifier_char;
pub use model::identifier_run;
pub use model::is_identifier_char;
pub use model::is_skippable;
pub use model::lemma_identifier_run_at_least;
pub use model::lemma_identifier_run_bounds;
pub use model::lemma_identifier_run_chars;
pub use model::lemma_next_token_progress;
pub use model::lemma_next_token_skip_prefix;
pub use model::lemma_tokens_of_same_step;
pub use model::next_token_of;
pub use model::skippable;
pub use model::tokens_of;
pub use token::Token;
pub use token::TokenView;
pub use token::TokenizeError;
pub use token::token_views;
pub use tokenizer::ListTokenizer;
pub use tokenizer::list_tokenizer;

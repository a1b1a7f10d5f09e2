//! A zero-copy tokenizer for logfmt-style text: whitespace-separated
//! `key=value` tokens, where a value is either a bare run of non-whitespace
//! characters or a double-quoted string that may contain whitespace.
//!
//! The tokenizer walks the input once, character by character, driving a small
//! finite-state machine, and lazily hands out `(key, value)` pairs that borrow
//! from the input text. It never fails: malformed fragments are absorbed into
//! best-effort token boundaries or silently dropped.
//!
//! The mathematical meaning of a parse is given by [`parse`], and the laws
//! that the tokenizer obeys are stated and proved as public proof functions:
//! see [`lemma_parse_encoding`] and its companions.

mod chars;
mod laws;
mod model;
mod state;
mod tokenizer;

pub use chars::is_whitespace_char;
pub use chars::is_ws;
pub use laws::all_ws;
pub use laws::is_key_char;
pub use laws::lemma_bare_token_dropped;
pub use laws::lemma_empty_value_forms;
pub use laws::lemma_parse_encoding;
pub use laws::lemma_parse_space_separated;
pub use laws::lemma_quoted_value_verbatim;
pub use laws::lemma_unterminated_quote_dropped;
pub use laws::lemma_whitespace_only;
pub use laws::space_joined;
pub use laws::token_chars;
pub use laws::tokens_chars;
pub use laws::wf_bare_value;
pub use laws::wf_key;
pub use laws::wf_pairs;
pub use model::pairs_from;
pub use model::parse;
pub use state::SpecState;
pub use state::State;
pub use tokenizer::Iter;
pub use tokenizer::Logfmt;

//! The mathematical meaning of a parse.
//!
//! [`parse`] maps an input text, as a sequence of characters, to the ordered
//! sequence of `(key, value)` pairs that one pass of the tokenizer emits.
//! It is defined by running the state machine of [`SpecState::step`] forward
//! from a position and a state, emitting a pair whenever the machine reaches
//! `ValueEnd` and applying the end-of-input completion rules when the text is
//! exhausted.

use crate::state::SpecState;
use vstd::prelude::*;

verus! {

/// The pairs that the remainder of a pass emits, starting at position `pos`
/// in state `s`.
///
/// At the end of the input, a completed key with `=` yields an empty value, an
/// unterminated unquoted value runs to the end of the text, and everything
/// else — a bare key, an unterminated quoted value, plain whitespace — yields
/// nothing.
pub open spec fn pairs_from(text: Seq<char>, pos: int, s: SpecState) -> Seq<
    (Seq<char>, Seq<char>),
>
    decreases text.len() - pos,
{
    if pos < 0 {
        Seq::empty()
    } else if pos >= text.len() {
        match s {
            SpecState::KeyEnd(ks, ke) => seq![(text.subrange(ks, ke), Seq::<char>::empty())],
            SpecState::ValueStart(ks, ke, vs) => seq![
                (text.subrange(ks, ke), text.subrange(vs, text.len() as int)),
            ],
            _ => Seq::empty(),
        }
    } else {
        let s2 = s.step(pos, text[pos]);
        match s2 {
            SpecState::ValueEnd(ks, ke, vs, ve) => seq![
                (text.subrange(ks, ke), text.subrange(vs, ve)),
            ] + pairs_from(text, pos + 1, SpecState::Init),
            _ => pairs_from(text, pos + 1, s2),
        }
    }
}

/// The ordered sequence of `(key, value)` pairs that a full pass over `text`
/// emits: keys in the order they begin in the text, duplicates preserved.
pub open spec fn parse(text: Seq<char>) -> Seq<(Seq<char>, Seq<char>)> {
    pairs_from(text, 0, SpecState::Init)
}

} // verus!

//! The parse state of the tokenizer and its transition function.
//!
//! [`State`] is the executable state, carrying character offsets into the
//! input text as `usize`. Its mathematical model is [`SpecState`], the same
//! tagged value over unbounded integers; [`SpecState::step`] is the pure
//! transition that the executable [`State::next`] is proved to implement.

use crate::chars::is_whitespace_char;
use crate::chars::is_ws;
use vstd::prelude::*;

verus! {

/// Where the tokenizer stands inside the current token, over mathematical
/// offsets. `ks`/`ke` bound the key span `[ks, ke)`, `vs`/`ve` the value span
/// `[vs, ve)`.
pub enum SpecState {
    /// Between tokens, skipping whitespace.
    Init,
    /// Inside a key that started at the stored offset.
    KeyStart(int),
    /// Just saw `=`; the key span is complete.
    KeyEnd(int, int),
    /// Inside an unquoted value.
    ValueStart(int, int, int),
    /// Inside a quoted value; the stored value start lies just after the
    /// opening quote.
    ValueStartWithQuote(int, int, int),
    /// A full pair is ready to emit.
    ValueEnd(int, int, int, int),
}

impl SpecState {
    /// The transition of the state machine: one step for the character `c`
    /// standing at offset `i`, total over all states and characters.
    pub open spec fn step(self, i: int, c: char) -> SpecState {
        match self {
            SpecState::Init => if is_ws(c) {
                SpecState::Init
            } else {
                SpecState::KeyStart(i)
            },
            SpecState::KeyStart(ks) => if c == '=' {
                SpecState::KeyEnd(ks, i)
            } else if is_ws(c) {
                SpecState::Init
            } else {
                SpecState::KeyStart(ks)
            },
            SpecState::KeyEnd(ks, ke) => if c == '"' {
                SpecState::ValueStartWithQuote(ks, ke, i + 1)
            } else if is_ws(c) {
                SpecState::ValueEnd(ks, ke, i, i)
            } else {
                SpecState::ValueStart(ks, ke, i)
            },
            SpecState::ValueStart(ks, ke, vs) => if is_ws(c) {
                SpecState::ValueEnd(ks, ke, vs, i)
            } else {
                SpecState::ValueStart(ks, ke, vs)
            },
            SpecState::ValueStartWithQuote(ks, ke, vs) => if c == '"' {
                SpecState::ValueEnd(ks, ke, vs, i)
            } else {
                SpecState::ValueStartWithQuote(ks, ke, vs)
            },
            SpecState::ValueEnd(_, _, _, _) => SpecState::Init,
        }
    }
}

/// The executable parse state: the same tagged value as [`SpecState`], with
/// offsets held as `usize` character indices into the input text.
#[derive(Debug, Clone, Copy)]
pub enum State {
    /// Between tokens, skipping whitespace.
    Init,
    /// Inside a key that started at the stored offset.
    KeyStart(usize),
    /// Just saw `=`; the key span is complete.
    KeyEnd(usize, usize),
    /// Inside an unquoted value.
    ValueStart(usize, usize, usize),
    /// Inside a quoted value; the stored value start lies just after the
    /// opening quote.
    ValueStartWithQuote(usize, usize, usize),
    /// A full pair is ready to emit.
    ValueEnd(usize, usize, usize, usize),
}

impl View for State {
    type V = SpecState;

    open spec fn view(&self) -> SpecState {
        match *self {
            State::Init => SpecState::Init,
            State::KeyStart(ks) => SpecState::KeyStart(ks as int),
            State::KeyEnd(ks, ke) => SpecState::KeyEnd(ks as int, ke as int),
            State::ValueStart(ks, ke, vs) => SpecState::ValueStart(ks as int, ke as int, vs as int),
            State::ValueStartWithQuote(ks, ke, vs) => SpecState::ValueStartWithQuote(
                ks as int,
                ke as int,
                vs as int,
            ),
            State::ValueEnd(ks, ke, vs, ve) => SpecState::ValueEnd(
                ks as int,
                ke as int,
                vs as int,
                ve as int,
            ),
        }
    }
}

impl State {
    /// One step of the state machine for the character `c` at offset `i`:
    /// exactly [`SpecState::step`] on the model.
    pub fn next(self, i: usize, c: char) -> (r: State)
        requires
            i < usize::MAX,
        ensures
            r@ == self@.step(i as int, c),
    {
        match self {
            State::Init => {
                if is_whitespace_char(c) {
                    State::Init
                } else {
                    State::KeyStart(i)
                }
            },
            State::KeyStart(ks) => {
                if c == '=' {
                    State::KeyEnd(ks, i)
                } else if is_whitespace_char(c) {
                    State::Init
                } else {
                    State::KeyStart(ks)
                }
            },
            State::KeyEnd(ks, ke) => {
                if c == '"' {
                    State::ValueStartWithQuote(ks, ke, i + 1)
                } else if is_whitespace_char(c) {
                    State::ValueEnd(ks, ke, i, i)
                } else {
                    State::ValueStart(ks, ke, i)
                }
            },
            State::ValueStart(ks, ke, vs) => {
                if is_whitespace_char(c) {
                    State::ValueEnd(ks, ke, vs, i)
                } else {
                    State::ValueStart(ks, ke, vs)
                }
            },
            State::ValueStartWithQuote(ks, ke, vs) => {
                if c == '"' {
                    State::ValueEnd(ks, ke, vs, i)
                } else {
                    State::ValueStartWithQuote(ks, ke, vs)
                }
            },
            State::ValueEnd(_, _, _, _) => State::Init,
        }
    }
}

} // verus!

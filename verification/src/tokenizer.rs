//! The tokenizer itself: a lazy, single-pass cursor over the input text.
//!
//! [`Iter`] borrows the text and owns a position and a parse state; each call
//! to [`Iter::next`] advances through the characters until a pair is ready or
//! the text is exhausted. Its contract ties every emitted pair to the
//! mathematical parse of the text: right after construction the pairs still
//! to come are exactly [`parse`] of the input, and each call either hands out
//! the first of them or ends the pass.

use crate::model::pairs_from;
use crate::model::parse;
use crate::state::SpecState;
use crate::state::State;
use vstd::prelude::*;
use vstd::string::StrSliceExecFns;

verus! {

/// The offsets stored in a live state are ordered and lie before the current
/// position `pos`; `ValueEnd` is transient and never held between steps.
pub open spec fn state_wf(s: SpecState, pos: int) -> bool {
    match s {
        SpecState::Init => true,
        SpecState::KeyStart(ks) => 0 <= ks < pos,
        SpecState::KeyEnd(ks, ke) => 0 <= ks < ke < pos,
        SpecState::ValueStart(ks, ke, vs) => 0 <= ks < ke < vs < pos,
        SpecState::ValueStartWithQuote(ks, ke, vs) => 0 <= ks < ke < vs <= pos,
        SpecState::ValueEnd(_, _, _, _) => false,
    }
}

/// A lazy, finite, single-pass sequence of `(key, value)` pairs parsed from a
/// borrowed text. Once exhausted it stays exhausted; it cannot rewind.
pub struct Iter<'a> {
    text: &'a str,
    len: usize,
    pos: usize,
    state: State,
}

impl<'a> Iter<'a> {
    /// The text this pass reads, as a sequence of characters.
    pub closed spec fn text_view(self) -> Seq<char> {
        self.text@
    }

    /// The cursor and the state are consistent with the text.
    pub closed spec fn wf(self) -> bool {
        &&& self.len == self.text@.len()
        &&& self.pos <= self.len
        &&& state_wf(self.state@, self.pos as int)
    }

    /// The pairs this pass has yet to emit.
    pub closed spec fn remaining(self) -> Seq<(Seq<char>, Seq<char>)> {
        pairs_from(self.text@, self.pos as int, self.state@)
    }

    /// Emits the next `(key, value)` pair of the pass, or `None` once the
    /// text is exhausted: exactly the head of [`Iter::remaining`], both views
    /// borrowed from the input text.
    pub fn next(&mut self) -> (r: Option<(&'a str, &'a str)>)
        requires
            old(self).wf(),
        ensures
            final(self).wf(),
            final(self).text_view() == old(self).text_view(),
            match r {
                Option::None => {
                    &&& old(self).remaining() == Seq::<(Seq<char>, Seq<char>)>::empty()
                    &&& final(self).remaining() == Seq::<(Seq<char>, Seq<char>)>::empty()
                },
                Option::Some(pair) => {
                    &&& old(self).remaining().len() > 0
                    &&& pair.0@ == old(self).remaining()[0].0
                    &&& pair.1@ == old(self).remaining()[0].1
                    &&& final(self).remaining() == old(self).remaining().drop_first()
                },
            },
    {
        while self.pos < self.len
            invariant
                self.wf(),
                self.text@ == old(self).text@,
                self.len == old(self).len,
                self.remaining() == old(self).remaining(),
            decreases self.len - self.pos,
        {
            let ghost pre = *self;
            let c = self.text.get_char(self.pos);
            let stepped = self.state.next(self.pos, c);
            match stepped {
                State::ValueEnd(ks, ke, vs, ve) => {
                    proof {
                        assert(0 <= ks as int <= ke as int <= vs as int <= ve as int
                            <= self.text@.len());
                    }
                    self.state = State::Init;
                    self.pos = self.pos + 1;
                    let key = self.text.substring_char(ks, ke);
                    let value = self.text.substring_char(vs, ve);
                    proof {
                        assert(pre.remaining() =~= seq![(key@, value@)] + self.remaining());
                        assert(self.remaining() =~= pre.remaining().drop_first());
                    }
                    return Some((key, value));
                },
                _ => {
                    self.state = stepped;
                    self.pos = self.pos + 1;
                },
            }
        }
        let ghost pre = *self;
        match self.state {
            State::KeyEnd(ks, ke) => {
                self.state = State::Init;
                let key = self.text.substring_char(ks, ke);
                let value = self.text.substring_char(self.len, self.len);
                proof {
                    assert(value@ =~= Seq::<char>::empty());
                    assert(pre.remaining() =~= seq![(key@, value@)]);
                    assert(self.remaining() =~= pre.remaining().drop_first());
                }
                Some((key, value))
            },
            State::ValueStart(ks, ke, vs) => {
                self.state = State::Init;
                let key = self.text.substring_char(ks, ke);
                let value = self.text.substring_char(vs, self.len);
                proof {
                    assert(pre.remaining() =~= seq![(key@, value@)]);
                    assert(self.remaining() =~= pre.remaining().drop_first());
                }
                Some((key, value))
            },
            _ => {
                proof {
                    assert(pre.remaining() =~= Seq::<(Seq<char>, Seq<char>)>::empty());
                }
                None
            },
        }
    }
}

/// Attaches the parse operation to a text-like input type.
pub trait Logfmt<'a> {
    /// The input, as the sequence of characters the tokenizer reads.
    spec fn chars_view(&'a self) -> Seq<char>;

    /// Starts one pass of the tokenizer over `self`: the pairs the returned
    /// cursor will emit are exactly [`parse`] of the input.
    fn logfmt(&'a self) -> (it: Iter<'a>)
        ensures
            it.wf(),
            it.text_view() == self.chars_view(),
            it.remaining() == parse(self.chars_view()),
    ;
}

impl<'a> Logfmt<'a> for str {
    open spec fn chars_view(&'a self) -> Seq<char> {
        self@
    }

    fn logfmt(&'a self) -> (it: Iter<'a>) {
        let n: usize = self.unicode_len();
        Iter { text: self, len: n, pos: 0, state: State::Init }
    }
}

} // verus!

use vstd::prelude::*;
use vstd::string::StrSliceExecFns;
use crate::error::{unique_msgs, ErrV, Error, ErrorMessage};
use crate::stream::Stream;

verus! {

/// Shared parse-wide state: the source text and the diagnostic tracker.
/// Created once per top-level parse and threaded, as an explicit mutable
/// handle, through every parse call made against that text.
pub struct Context {
    /// The full source text, one entry per character.
    pub text: Vec<char>,
    /// The furthest-failure tracker.
    pub catcher: Catcher,
}

/// The shared diagnostic tracker: the furthest-reaching failure seen so far
/// (a position and the expectation messages recorded exactly there), plus a
/// suppression flag. While the flag is cleared, registration is a no-op:
/// named rules use this to hide low-level noise.
pub struct Catcher {
    /// Position of the furthest failure seen (initially the start).
    pub stream: Stream,
    /// The unique expectation messages at that position.
    pub messages: Vec<ErrorMessage>,
    /// Whether registration is active; cleared inside named rules.
    pub is_started: bool,
}

impl Catcher {
    /// Well-formed: the position is valid and no message occurs twice.
    pub open spec fn wf(&self) -> bool {
        &&& self.stream.wf()
        &&& unique_msgs(self.messages.deep_view())
    }

    /// Residual length at the recorded failure position.
    pub open spec fn rest(&self) -> int {
        self.stream.rest()
    }

    /// The recorded failure, as an error value.
    pub open spec fn as_err(&self) -> ErrV {
        ErrV { stream: self.stream, msgs: self.messages.deep_view() }
    }

    /// A fresh tracker for a text of `len` characters: positioned at the
    /// start, no messages, registration active.
    pub fn new(len: usize) -> (r: Catcher)
        ensures
            r.wf(),
            r.stream == (Stream { pos: 0, len }),
            r.messages.deep_view() == Seq::<crate::error::MsgV>::empty(),
            r.is_started,
    {
        let messages: Vec<ErrorMessage> = Vec::new();
        assert(messages.deep_view() =~= Seq::<crate::error::MsgV>::empty());
        Catcher { stream: Stream { pos: 0, len }, messages, is_started: true }
    }

    /// Set the suppression flag, returning its previous state (so that a
    /// named rule can restore it exactly).
    pub fn set_started(&mut self, is_started: bool) -> (r: bool)
        ensures
            r == old(self).is_started,
            final(self).is_started == is_started,
            final(self).stream == old(self).stream,
            final(self).messages == old(self).messages,
    {
        let old_started = self.is_started;
        self.is_started = is_started;
        old_started
    }

    /// Take the recorded (position, messages) pair out, leaving the tracker
    /// reset to the start of the text with no messages.
    pub fn pop_error(&mut self) -> (r: (Stream, Vec<ErrorMessage>))
        ensures
            r.0 == old(self).stream,
            r.1 == old(self).messages,
            final(self).stream == (Stream { pos: 0, len: old(self).stream.len }),
            final(self).messages.deep_view() == Seq::<crate::error::MsgV>::empty(),
            final(self).is_started == old(self).is_started,
    {
        let len = self.stream.len;
        let mut stream = Stream { pos: 0, len };
        let mut messages: Vec<ErrorMessage> = Vec::new();
        assert(messages.deep_view() =~= Seq::<crate::error::MsgV>::empty());
        core::mem::swap(&mut self.stream, &mut stream);
        core::mem::swap(&mut self.messages, &mut messages);
        (stream, messages)
    }

    /// Store a failure: position and messages are replaced together.
    pub fn set_error(&mut self, err: Error)
        requires
            err.wf(),
        ensures
            final(self).stream == err.stream,
            final(self).messages == err.messages,
            final(self).as_err() == err@,
            final(self).is_started == old(self).is_started,
            final(self).wf(),
    {
        self.messages = err.messages;
        self.stream = err.stream;
    }
}

impl Context {
    /// Whether the tracker's position lies within this text.
    pub open spec fn wf(&self) -> bool {
        &&& self.catcher.wf()
        &&& self.catcher.stream.len == self.text@.len()
    }

    /// Fresh shared state for one top-level parse of `text`.
    pub fn new(text: &str) -> (r: Context)
        ensures
            r.wf(),
            r.text@ == text@,
            r.catcher.stream == (Stream { pos: 0, len: text@.len() as usize }),
            r.catcher.messages.deep_view() == Seq::<crate::error::MsgV>::empty(),
            r.catcher.is_started,
    {
        let len = text.unicode_len();
        let mut chars: Vec<char> = Vec::new();
        let mut i: usize = 0;
        while i < len
            invariant
                i <= len,
                len == text@.len(),
                chars@ =~= text@.take(i as int),
            decreases len - i,
        {
            chars.push(text.get_char(i));
            i = i + 1;
        }
        proof {
            assert(text@.take(len as int) =~= text@);
        }
        Context { text: chars, catcher: Catcher::new(len) }
    }
}

} // verus!

use vstd::prelude::*;
use vstd::string::StrSliceExecFns;
use crate::context::Context;
use crate::error::{is_merge, Error, ErrorMessage, PResult};

verus! {

/// A cursor over the source text: the index of the next character plus the
/// total number of characters. The text itself, and the shared diagnostic
/// tracker, live in the [`Context`] that is threaded explicitly through every
/// parse call. Two cursors over the same text compare by position alone;
/// `rest` (the residual length) is the universal "how far did we get" measure.
#[derive(Clone, Copy, Debug, PartialEq, Eq, Structural)]
pub struct Stream {
    /// Index of the next unread character.
    pub pos: usize,
    /// Total number of characters in the source text.
    pub len: usize,
}

/// What advancing a cursor yields: the next character and the position past
/// it, or the end-of-input sentinel `'\0'` with the position unchanged.
pub open spec fn spec_next(text: Seq<char>, pos: int) -> (int, char) {
    if pos < text.len() {
        (pos + 1, text[pos])
    } else {
        (pos, '\0')
    }
}

impl Stream {
    /// The cursor never points past the end of the text.
    pub open spec fn wf(&self) -> bool {
        self.pos <= self.len
    }

    /// Residual length: how many characters remain unconsumed.
    pub open spec fn rest(&self) -> int {
        self.len - self.pos
    }

    /// The initial cursor for a source text, at position zero.
    pub fn new(text: &str) -> (s: Stream)
        ensures
            s.pos == 0,
            s.len == text@.len(),
            s.wf(),
    {
        Stream { pos: 0, len: text.unicode_len() }
    }

    /// Residual length as an executable value.
    pub fn rest_len(&self) -> (n: usize)
        requires
            self.wf(),
        ensures
            n as int == self.rest(),
    {
        self.len - self.pos
    }

    /// Advance: the next character and a cursor past it, or the end-of-input
    /// sentinel `'\0'` and this cursor unchanged.
    pub fn next(&self, ctx: &Context) -> (r: (Stream, char))
        requires
            self.wf(),
            ctx.wf(),
            self.len == ctx.text@.len(),
        ensures
            r.0.wf(),
            r.0.len == self.len,
            self.pos <= r.0.pos,
            (r.0.pos as int, r.1) == spec_next(ctx.text@, self.pos as int),
    {
        if self.pos < self.len {
            let ch = ctx.text[self.pos];
            (Stream { pos: self.pos + 1, len: self.len }, ch)
        } else {
            (*self, '\0')
        }
    }

    /// Package a success outcome at the current position.
    pub fn ok<R>(&self, result: R) -> (r: PResult<R>)
        ensures
            r == Ok::<(Stream, R), Error>((*self, result)),
    {
        Ok((*self, result))
    }

    /// Build an error at the current position, register it with the shared
    /// tracker, and return the (merged) failure outcome.
    pub fn err<R>(&self, message: ErrorMessage, ctx: &mut Context) -> (r: PResult<R>)
        requires
            self.wf(),
            old(ctx).wf(),
            self.len == old(ctx).text@.len(),
        ensures
            final(ctx).wf(),
            final(ctx).text == old(ctx).text,
            final(ctx).catcher.is_started == old(ctx).catcher.is_started,
            r is Err,
            ({
                let e = r->Err_0;
                &&& e.wf()
                &&& e.stream.len == self.len
                &&& e.rest() <= self.rest()
                &&& final(ctx).catcher.rest() <= old(ctx).catcher.rest()
                &&& if old(ctx).catcher.is_started {
                    &&& is_merge(
                        crate::error::ErrV { stream: *self, msgs: seq![message@] },
                        old(ctx).catcher.as_err(),
                        e@,
                    )
                    &&& final(ctx).catcher.as_err() == e@
                } else {
                    &&& final(ctx).catcher == old(ctx).catcher
                    &&& e@.stream == *self
                    &&& e@.msgs.len() == 1
                    &&& e@.msgs[0] == message@
                }
            }),
    {
        let err = Error::new(*self, message);
        let err = self.catch(err, ctx);
        Err(err)
    }

    /// The merge entry point of furthest-failure registration: combine the
    /// given error with what the tracker holds (furthest wins; ties union
    /// their message sets), store the merged error back, and return it. When
    /// the suppression flag is inactive this is a no-op that returns the
    /// error unchanged.
    pub fn catch(&self, error: Error, ctx: &mut Context) -> (r: Error)
        requires
            self.wf(),
            old(ctx).wf(),
            self.len == old(ctx).text@.len(),
            error.wf(),
            error.stream.len == self.len,
        ensures
            final(ctx).wf(),
            final(ctx).text == old(ctx).text,
            final(ctx).catcher.is_started == old(ctx).catcher.is_started,
            r.wf(),
            r.stream.len == self.len,
            final(ctx).catcher.rest() <= old(ctx).catcher.rest(),
            r.rest() <= error.rest(),
            if old(ctx).catcher.is_started {
                &&& is_merge(error@, old(ctx).catcher.as_err(), r@)
                &&& final(ctx).catcher.as_err() == r@
            } else {
                &&& final(ctx).catcher == old(ctx).catcher
                &&& r == error
            },
    {
        if !ctx.catcher.is_started {
            return error;
        }
        let (cstream, cmessages) = ctx.catcher.pop_error();
        let candidate = Error { stream: cstream, messages: cmessages };
        let merged = error.or(candidate);
        let stored = merged.clone();
        ctx.catcher.set_error(stored);
        merged
    }
}

} // verus!

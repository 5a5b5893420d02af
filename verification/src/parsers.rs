use vstd::prelude::*;
use vstd::string::StrSliceExecFns;
use vstd::string::StringExecFns;
use crate::context::Context;
use crate::error::{ErrorMessage, Expected, ExpectedV, MsgV, PResult};
use crate::parser::Parser;
use crate::stream::{spec_next, Stream};

verus! {

/// End-of-input sentinel character, as yielded by cursor advancement past
/// the end of text. The sentinel itself can be matched as a literal
/// character to require end of input.
pub const EOF: char = '\0';

/// Literal character: succeed exactly when the next character equals it.
impl Parser for char {
    type Result = char;

    open spec fn wf(&self) -> bool {
        true
    }

    open spec fn spec_parse(&self, text: Seq<char>, pos: int) -> Option<(int, char)> {
        let (npos, c) = spec_next(text, pos);
        if c == *self {
            Some((npos, c))
        } else {
            None
        }
    }

    fn parse(&self, stream: Stream, ctx: &mut Context) -> (r: PResult<char>)
        ensures
            r matches Err(e) ==> (!old(ctx).catcher.is_started ==> e@.stream == stream
                && e@.msgs == seq![MsgV::Expected(ExpectedV::Char(*self))]),
    {
        let (end, ch) = stream.next(ctx);
        if ch == *self {
            end.ok(ch)
        } else {
            let r = stream.err::<char>(ErrorMessage::Expected(Expected::Char(*self)), ctx);
            proof {
                if !old(ctx).catcher.is_started {
                    assert((r->Err_0)@.msgs =~= seq![MsgV::Expected(ExpectedV::Char(*self))]);
                }
            }
            r
        }
    }
}

/// Whether the literal `s` occurs in `text` at `pos`; the position past it
/// when it does.
pub open spec fn spec_lit(s: Seq<char>, text: Seq<char>, pos: int) -> Option<int> {
    if pos + s.len() <= text.len() && text.subrange(pos, pos + s.len()) == s {
        Some(pos + s.len())
    } else {
        None
    }
}

/// Literal string: match character by character; all or nothing. A full
/// match consumes exactly the literal's length; on any mismatch the error is
/// registered at the starting position and nothing is consumed.
impl<'a> Parser for &'a str {
    type Result = &'a str;

    open spec fn wf(&self) -> bool {
        true
    }

    open spec fn spec_parse(&self, text: Seq<char>, pos: int) -> Option<(int, Seq<char>)> {
        match spec_lit(self@, text, pos) {
            Some(e) => Some((e, self@)),
            None => None,
        }
    }

    fn parse(&self, stream: Stream, ctx: &mut Context) -> (r: PResult<&'a str>)
        ensures
            r matches Ok((s2, _)) ==> s2.pos == stream.pos + self@.len(),
            r matches Err(e) ==> (!old(ctx).catcher.is_started ==> e@.stream == stream
                && e@.msgs == seq![MsgV::Expected(ExpectedV::Str(self@))]),
    {
        let ghost text = old(ctx).text@;
        let n = self.unicode_len();
        if stream.len - stream.pos < n {
            let r = stream.err::<&'a str>(
                ErrorMessage::Expected(Expected::Str(String::from_str(self))),
                ctx,
            );
            proof {
                if !old(ctx).catcher.is_started {
                    assert((r->Err_0)@.msgs =~= seq![MsgV::Expected(ExpectedV::Str(self@))]);
                }
            }
            return r;
        }
        let mut i: usize = 0;
        let mut cur = stream;
        while i < n
            invariant
                i <= n,
                n == self@.len(),
                stream.wf(),
                stream.pos + n <= stream.len,
                stream.len == text.len(),
                cur == (Stream { pos: (stream.pos + i) as usize, len: stream.len }),
                ctx.text@ == text,
                ctx.text == old(ctx).text,
                ctx.catcher == old(ctx).catcher,
                ctx.wf(),
                forall|k: int| 0 <= k < i ==> text[stream.pos + k] == self@[k],
            decreases n - i,
        {
            let (s2, c) = cur.next(ctx);
            if c != self.get_char(i) {
                proof {
                    assert(c == text[stream.pos + i]);
                    assert(text.subrange(
                        stream.pos as int,
                        stream.pos + self@.len(),
                    )[i as int] == text[stream.pos + i]);
                }
                let r = stream.err::<&'a str>(
                    ErrorMessage::Expected(Expected::Str(String::from_str(self))),
                    ctx,
                );
                proof {
                    if !old(ctx).catcher.is_started {
                        assert((r->Err_0)@.msgs =~= seq![MsgV::Expected(ExpectedV::Str(self@))]);
                    }
                }
                return r;
            }
            cur = s2;
            i = i + 1;
        }
        proof {
            assert(text.subrange(stream.pos as int, stream.pos + self@.len()) =~= self@);
        }
        cur.ok(*self)
    }
}

/// A half-open character range (end excluded): succeed exactly when the next
/// character falls within it.
pub struct CharRange {
    /// Smallest accepted character.
    pub lo: char,
    /// First character past the accepted span.
    pub hi: char,
}

/// A half-open character range, accepting `lo <= c < hi`.
pub fn range(lo: char, hi: char) -> (r: CharRange)
    ensures
        r.lo == lo,
        r.hi == hi,
{
    CharRange { lo, hi }
}

impl Parser for CharRange {
    type Result = char;

    open spec fn wf(&self) -> bool {
        true
    }

    open spec fn spec_parse(&self, text: Seq<char>, pos: int) -> Option<(int, char)> {
        let (npos, c) = spec_next(text, pos);
        if self.lo as u32 <= c as u32 && (c as u32) < self.hi as u32 {
            Some((npos, c))
        } else {
            None
        }
    }

    fn parse(&self, stream: Stream, ctx: &mut Context) -> (r: PResult<char>)
        ensures
            r matches Err(e) ==> (!old(ctx).catcher.is_started ==> e@.stream == stream
                && e@.msgs == seq![MsgV::Expected(ExpectedV::Range(self.lo, self.hi))]),
    {
        let (end, ch) = stream.next(ctx);
        if self.lo as u32 <= ch as u32 && (ch as u32) < self.hi as u32 {
            end.ok(ch)
        } else {
            let r = stream.err::<char>(
                ErrorMessage::Expected(Expected::Range(self.lo, self.hi)),
                ctx,
            );
            proof {
                if !old(ctx).catcher.is_started {
                    assert((r->Err_0)@.msgs =~= seq![
                        MsgV::Expected(ExpectedV::Range(self.lo, self.hi)),
                    ]);
                }
            }
            r
        }
    }
}

/// An inclusive character range: succeed exactly when the next character
/// falls within it.
pub struct CharRangeInclusive {
    /// Smallest accepted character.
    pub lo: char,
    /// Largest accepted character.
    pub hi: char,
}

/// An inclusive character range, accepting `lo <= c <= hi`.
pub fn range_incl(lo: char, hi: char) -> (r: CharRangeInclusive)
    ensures
        r.lo == lo,
        r.hi == hi,
{
    CharRangeInclusive { lo, hi }
}

impl Parser for CharRangeInclusive {
    type Result = char;

    open spec fn wf(&self) -> bool {
        true
    }

    open spec fn spec_parse(&self, text: Seq<char>, pos: int) -> Option<(int, char)> {
        let (npos, c) = spec_next(text, pos);
        if self.lo as u32 <= c as u32 && c as u32 <= self.hi as u32 {
            Some((npos, c))
        } else {
            None
        }
    }

    fn parse(&self, stream: Stream, ctx: &mut Context) -> (r: PResult<char>)
        ensures
            r matches Err(e) ==> (!old(ctx).catcher.is_started ==> e@.stream == stream
                && e@.msgs == seq![
                MsgV::Expected(ExpectedV::RangeInclusive(self.lo, self.hi)),
            ]),
    {
        let (end, ch) = stream.next(ctx);
        if self.lo as u32 <= ch as u32 && ch as u32 <= self.hi as u32 {
            end.ok(ch)
        } else {
            let r = stream.err::<char>(
                ErrorMessage::Expected(Expected::RangeInclusive(self.lo, self.hi)),
                ctx,
            );
            proof {
                if !old(ctx).catcher.is_started {
                    assert((r->Err_0)@.msgs =~= seq![
                        MsgV::Expected(ExpectedV::RangeInclusive(self.lo, self.hi)),
                    ]);
                }
            }
            r
        }
    }
}

/// Whether `c` occurs among `cs`.
fn contains_char(cs: &Vec<char>, c: char) -> (r: bool)
    ensures
        r == cs@.contains(c),
{
    let n = cs.len();
    let mut i: usize = 0;
    while i < n
        invariant
            i <= n,
            n == cs@.len(),
            forall|k: int| 0 <= k < i ==> cs@[k] != c,
        decreases n - i,
    {
        if cs[i] == c {
            assert(cs@.contains(c));
            return true;
        }
        i = i + 1;
    }
    false
}

/// A fixed character set: succeed exactly when the next character is a
/// member.
pub struct OneOf {
    /// The accepted characters.
    pub chars: Vec<char>,
    /// The set as given, for the failure message.
    pub label: String,
}

/// The parser accepting any one of the given characters.
pub fn one_of(chars: &str) -> (r: OneOf)
    ensures
        r.chars@ == chars@,
        r.label@ == chars@,
{
    let n = chars.unicode_len();
    let mut accepted: Vec<char> = Vec::new();
    let mut i: usize = 0;
    while i < n
        invariant
            i <= n,
            n == chars@.len(),
            accepted@ =~= chars@.take(i as int),
        decreases n - i,
    {
        accepted.push(chars.get_char(i));
        i = i + 1;
    }
    proof {
        assert(chars@.take(n as int) =~= chars@);
    }
    OneOf { chars: accepted, label: String::from_str(chars) }
}

impl Parser for OneOf {
    type Result = char;

    open spec fn wf(&self) -> bool {
        true
    }

    open spec fn spec_parse(&self, text: Seq<char>, pos: int) -> Option<(int, char)> {
        let (npos, c) = spec_next(text, pos);
        if self.chars@.contains(c) {
            Some((npos, c))
        } else {
            None
        }
    }

    fn parse(&self, stream: Stream, ctx: &mut Context) -> (r: PResult<char>)
        ensures
            r matches Err(e) ==> (!old(ctx).catcher.is_started ==> e@.stream == stream
                && e@.msgs == seq![MsgV::Expected(ExpectedV::OneOf(self.label@))]),
    {
        let (end, ch) = stream.next(ctx);
        if contains_char(&self.chars, ch) {
            end.ok(ch)
        } else {
            let r = stream.err::<char>(
                ErrorMessage::Expected(Expected::OneOf(self.label.clone())),
                ctx,
            );
            proof {
                if !old(ctx).catcher.is_started {
                    assert((r->Err_0)@.msgs =~= seq![MsgV::Expected(ExpectedV::OneOf(self.label@))]);
                }
            }
            r
        }
    }
}

/// Wildcard: succeed with the next character unless it is the end-of-input
/// sentinel, which is reported as "unexpected end of input".
pub struct Any;

impl Parser for Any {
    type Result = char;

    open spec fn wf(&self) -> bool {
        true
    }

    open spec fn spec_parse(&self, text: Seq<char>, pos: int) -> Option<(int, char)> {
        let (npos, c) = spec_next(text, pos);
        if c != EOF {
            Some((npos, c))
        } else {
            None
        }
    }

    fn parse(&self, stream: Stream, ctx: &mut Context) -> (r: PResult<char>)
        ensures
            r matches Err(e) ==> (!old(ctx).catcher.is_started ==> e@.stream == stream
                && e@.msgs == seq![MsgV::UnexpectedEOF]),
    {
        let (end, ch) = stream.next(ctx);
        if ch != EOF {
            end.ok(ch)
        } else {
            let r = stream.err::<char>(ErrorMessage::UnexpectedEOF, ctx);
            proof {
                if !old(ctx).catcher.is_started {
                    assert((r->Err_0)@.msgs =~= seq![MsgV::UnexpectedEOF]);
                }
            }
            r
        }
    }
}

} // verus!

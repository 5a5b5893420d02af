use vstd::prelude::*;
use vstd::string::StringExecFns;
use crate::context::Context;
use crate::error::{Error, ErrorMessage, Expected, ExpectedV, MsgV, PResult};
use crate::stream::Stream;

verus! {

/// The parsing-unit interface. One operation: given a cursor, produce
/// success (a cursor past the consumed input, and a value) or failure (an
/// error). `spec_parse` is the unit's mathematical meaning — a function of
/// the text and the position alone; the shared tracker never influences
/// which branch succeeds, only the diagnostics. Every implementation
/// guarantees:
/// - consumption is monotonic: success never moves the cursor backwards;
/// - the suppression flag is restored exactly, and while it is cleared the
///   tracker is left untouched;
/// - the tracker's recorded failure only ever moves deeper into the input.
pub trait Parser: Sized {
    /// The success value.
    type Result: DeepView;

    /// Structural well-formedness of the unit (for closure-carrying units,
    /// that the closure may be called and is described by its ghost spec).
    spec fn wf(&self) -> bool;

    /// The unit's meaning: `None` for failure at `pos`, or the residual
    /// position and the mathematical value on success.
    spec fn spec_parse(&self, text: Seq<char>, pos: int) -> Option<
        (int, <Self::Result as DeepView>::V),
    >;

    /// Run the unit against a cursor, registering failures with the shared
    /// tracker in `ctx`.
    fn parse(&self, stream: Stream, ctx: &mut Context) -> (r: PResult<Self::Result>)
        requires
            self.wf(),
            stream.wf(),
            old(ctx).wf(),
            stream.len == old(ctx).text@.len(),
        ensures
            final(ctx).wf(),
            final(ctx).text == old(ctx).text,
            final(ctx).catcher.is_started == old(ctx).catcher.is_started,
            !old(ctx).catcher.is_started ==> final(ctx).catcher == old(ctx).catcher,
            final(ctx).catcher.rest() <= old(ctx).catcher.rest(),
            match r {
                Ok((s2, v)) => {
                    &&& s2.wf()
                    &&& s2.len == stream.len
                    &&& stream.pos <= s2.pos
                    &&& self.spec_parse(old(ctx).text@, stream.pos as int) == Some(
                        (s2.pos as int, v.deep_view()),
                    )
                },
                Err(e) => {
                    &&& e.wf()
                    &&& e.stream.len == stream.len
                    &&& self.spec_parse(old(ctx).text@, stream.pos as int) is None
                    &&& (!old(ctx).catcher.is_started ==> stream.pos <= e.stream.pos)
                },
            },
    ;

}

/// The combinator methods, available on every parsing unit. They only build
/// the combinator values; all behaviour is specified on the combinators'
/// [`Parser`] implementations.
pub trait Combine: Parser {
    /// Ordered choice: this unit, or `other` from the same position.
    fn or<P: Parser>(self, other: P) -> (r: Or<Self, P>)
        ensures
            r.a == self,
            r.b == other,
    ;

    /// Sequence: this unit, then `other` on the residual input.
    fn seq<P: Parser>(self, other: P) -> (r: Chain<Self, P>)
        ensures
            r.a == self,
            r.b == other,
    ;

    /// This unit, provided `other` (named `label` in the failure message)
    /// fails at the same starting position.
    fn and_not<P: Parser>(self, other: P, label: &str) -> (r: AndNot<Self, P>)
        ensures
            r.a == self,
            r.b == other,
            r.label@ == label@,
    ;

    /// This unit's value at the front of the sequence `other` produces.
    fn prepend<P: Parser>(self, other: P) -> (r: Prepend<Self, P>)
        ensures
            r.a == self,
            r.b == other,
    ;

    /// This unit made optional; never fails.
    fn opt(self) -> (r: Opt<Self>)
        ensures
            r.a == self,
    ;

    /// Zero or more repetitions of this unit; never fails.
    fn many(self) -> (r: Many<Self>)
        ensures
            r.a == self,
    ;

    /// Zero or more repetitions whose count must lie in `min..=max`.
    fn in_range(self, min: usize, max: usize) -> (r: InRange<Self>)
        ensures
            r.a == self,
            r.min == min,
            r.max == max,
    ;

    /// Transform the success value with `f`, whose meaning `gf` names.
    fn map<R: DeepView, F: Fn(Self::Result) -> R>(
        self,
        f: F,
        gf: Ghost<spec_fn(<Self::Result as DeepView>::V) -> <R as DeepView>::V>,
    ) -> (r: Mapped<Self, R, F>)
        requires
            forall|v: Self::Result| #[trigger] call_requires(f, (v,)),
            forall|v: Self::Result, o: R| #[trigger]
                call_ensures(f, (v,), o) ==> o.deep_view() == (gf@)(v.deep_view()),
        ensures
            r.a == self,
            r.f == f,
            r.gf == gf,
            r.wf() == self.wf(),
    ;

    /// Concatenate this unit's characters into a text value.
    fn as_string(self) -> (r: AsString<Self>)
        ensures
            r.a == self,
    ;

    /// Replace the success value with the fixed character `c`.
    fn to_char(self, c: char) -> (r: ToChar<Self>)
        ensures
            r.a == self,
            r.c == c,
    ;

    /// One or more repetitions of this unit.
    fn some(self) -> (r: OneOrMore<Self>)
        ensures
            r.a == self,
    ;

    /// Sequence with `other`, keeping only `other`'s result.
    fn ignore_prev<P: Parser>(self, other: P) -> (r: IgnorePrev<Self, P>)
        ensures
            r.a == self,
            r.b == other,
    ;

    /// Sequence with `other`, keeping only this unit's result.
    fn ignore_this<P: Parser>(self, other: P) -> (r: IgnoreThis<Self, P>)
        ensures
            r.a == self,
            r.b == other,
    ;

    /// This unit made optional, yielding `fallback` when it fails.
    fn opt_default(self, fallback: Self::Result) -> (r: OptDefault<Self>)
        ensures
            r.a == self,
            r.fallback == fallback,
    ;

    /// One or more of this unit separated by `sep`.
    fn list<P: Parser>(self, sep: P) -> (r: List<Self, P>)
        ensures
            r.item == self,
            r.sep == sep,
    ;

    /// One or more of this unit separated by `sep`, with one optional
    /// trailing separator permitted and discarded.
    fn list_trailing<P: Parser>(self, sep: P) -> (r: ListTrailing<Self, P>)
        ensures
            r.item == self,
            r.sep == sep,
    ;

    /// Wrap this unit as a named rule: internal failures are hidden from the
    /// tracker and collapsed into the single expectation "rule `name`".
    fn rule(self, name: &str) -> (r: Rule<Self>)
        ensures
            r.a == self,
            r.name@ == name@,
    ;
}

impl<A: Parser> Combine for A {
    fn or<P: Parser>(self, other: P) -> (r: Or<Self, P>) {
        Or { a: self, b: other }
    }

    fn seq<P: Parser>(self, other: P) -> (r: Chain<Self, P>) {
        Chain { a: self, b: other }
    }

    fn and_not<P: Parser>(self, other: P, label: &str) -> (r: AndNot<Self, P>) {
        AndNot { a: self, b: other, label: String::from_str(label) }
    }

    fn prepend<P: Parser>(self, other: P) -> (r: Prepend<Self, P>) {
        Prepend { a: self, b: other }
    }

    fn opt(self) -> (r: Opt<Self>) {
        Opt { a: self }
    }

    fn many(self) -> (r: Many<Self>) {
        Many { a: self }
    }

    fn in_range(self, min: usize, max: usize) -> (r: InRange<Self>) {
        InRange { a: self, min, max }
    }

    fn map<R: DeepView, F: Fn(Self::Result) -> R>(
        self,
        f: F,
        gf: Ghost<spec_fn(<Self::Result as DeepView>::V) -> <R as DeepView>::V>,
    ) -> (r: Mapped<Self, R, F>) {
        Mapped { a: self, f, gf }
    }

    fn as_string(self) -> (r: AsString<Self>) {
        AsString { a: self }
    }

    fn to_char(self, c: char) -> (r: ToChar<Self>) {
        ToChar { a: self, c }
    }

    fn some(self) -> (r: OneOrMore<Self>) {
        OneOrMore { a: self }
    }

    fn ignore_prev<P: Parser>(self, other: P) -> (r: IgnorePrev<Self, P>) {
        IgnorePrev { a: self, b: other }
    }

    fn ignore_this<P: Parser>(self, other: P) -> (r: IgnoreThis<Self, P>) {
        IgnoreThis { a: self, b: other }
    }

    fn opt_default(self, fallback: Self::Result) -> (r: OptDefault<Self>) {
        OptDefault { a: self, fallback }
    }

    fn list<P: Parser>(self, sep: P) -> (r: List<Self, P>) {
        List { item: self, sep }
    }

    fn list_trailing<P: Parser>(self, sep: P) -> (r: ListTrailing<Self, P>) {
        ListTrailing { item: self, sep }
    }

    fn rule(self, name: &str) -> (r: Rule<Self>) {
        Rule { a: self, name: String::from_str(name) }
    }
}

/// Apply the unit `a` repeatedly from `pos` until it fails, or until it
/// succeeds without consuming (repetition of an empty match would never
/// end). Returns the final position and the collected values.
pub open spec fn spec_many<A: Parser>(a: A, text: Seq<char>, pos: int) -> (
    int,
    Seq<<A::Result as DeepView>::V>,
)
    decreases text.len() - pos,
{
    match a.spec_parse(text, pos) {
        None => (pos, Seq::empty()),
        Some((end, v)) => if pos < end <= text.len() {
            let (e2, vs) = spec_many(a, text, end);
            (e2, seq![v] + vs)
        } else {
            (pos, Seq::empty())
        },
    }
}

/// The canonical meaning of a single-character-class unit: succeed on the
/// next character exactly when it satisfies `cls` (the end-of-input sentinel
/// never does).
pub open spec fn spec_class_parse(cls: spec_fn(char) -> bool, text: Seq<char>, pos: int) -> Option<
    (int, char),
> {
    let (npos, c) = crate::stream::spec_next(text, pos);
    if c != '\0' && cls(c) {
        Some((npos, c))
    } else {
        None
    }
}

/// Where the maximal run of `cls`-characters starting at `pos` ends.
pub open spec fn class_run_end(cls: spec_fn(char) -> bool, text: Seq<char>, pos: int) -> int
    decreases text.len() - pos,
{
    if 0 <= pos < text.len() && cls(text[pos]) {
        class_run_end(cls, text, pos + 1)
    } else {
        pos
    }
}

/// Repeating a character-class unit consumes exactly the maximal run of
/// class characters and yields them.
pub proof fn lemma_many_of_class<A: Parser<Result = char>>(
    a: A,
    cls: spec_fn(char) -> bool,
    text: Seq<char>,
    pos: int,
)
    requires
        0 <= pos <= text.len(),
        !cls('\0'),
        forall|p: int|
            0 <= p <= text.len() ==> #[trigger] a.spec_parse(text, p) == spec_class_parse(
                cls,
                text,
                p,
            ),
    ensures
        ({
            let e = class_run_end(cls, text, pos);
            &&& pos <= e <= text.len()
            &&& spec_many(a, text, pos) == (e, text.subrange(pos, e))
            &&& forall|k: int| pos <= k < e ==> cls(text[k])
        }),
    decreases text.len() - pos,
{
    let e = class_run_end(cls, text, pos);
    if pos < text.len() && cls(text[pos]) {
        assert(a.spec_parse(text, pos) == Some((pos + 1, text[pos])));
        lemma_many_of_class(a, cls, text, pos + 1);
        assert(seq![text[pos]] + text.subrange(pos + 1, e) =~= text.subrange(pos, e));
    } else {
        assert(a.spec_parse(text, pos) is None);
        assert(spec_many(a, text, pos) == (pos, Seq::<char>::empty()));
        assert(text.subrange(pos, pos) =~= Seq::<char>::empty());
    }
}

/// Ordered choice of two units. Left-biased: when `a` succeeds, its result
/// is the result, whatever `b` would do; `b` runs only after `a` failed, from
/// the position `a` started at. When both fail, their errors are merged by
/// the furthest-wins policy and registered.
pub struct Or<A, B> {
    /// Tried first.
    pub a: A,
    /// Tried from the same position when `a` fails.
    pub b: B,
}

impl<A: Parser, B: Parser<Result = A::Result>> Parser for Or<A, B> {
    type Result = A::Result;

    open spec fn wf(&self) -> bool {
        self.a.wf() && self.b.wf()
    }

    open spec fn spec_parse(&self, text: Seq<char>, pos: int) -> Option<
        (int, <A::Result as DeepView>::V),
    > {
        match self.a.spec_parse(text, pos) {
            Some(r) => Some(r),
            None => self.b.spec_parse(text, pos),
        }
    }

    fn parse(&self, stream: Stream, ctx: &mut Context) -> (r: PResult<A::Result>)
        ensures
            r matches Err(e) ==> (old(ctx).catcher.is_started ==> e@ == final(ctx).catcher.as_err()),
    {
        match self.a.parse(stream, ctx) {
            Ok(p) => Ok(p),
            Err(err1) => match self.b.parse(stream, ctx) {
                Ok(p) => Ok(p),
                Err(err2) => {
                    let estream = err1.stream;
                    let merged = err1.or(err2);
                    let merged = estream.catch(merged, ctx);
                    Err(merged)
                },
            },
        }
    }
}

/// Sequencing of two units; the first failure short-circuits.
pub struct Chain<A, B> {
    /// Runs first.
    pub a: A,
    /// Runs on `a`'s residual input.
    pub b: B,
}

impl<A: Parser, B: Parser> Parser for Chain<A, B> {
    type Result = (A::Result, B::Result);

    open spec fn wf(&self) -> bool {
        self.a.wf() && self.b.wf()
    }

    open spec fn spec_parse(&self, text: Seq<char>, pos: int) -> Option<
        (int, (<A::Result as DeepView>::V, <B::Result as DeepView>::V)),
    > {
        match self.a.spec_parse(text, pos) {
            None => None,
            Some((p1, v1)) => match self.b.spec_parse(text, p1) {
                None => None,
                Some((p2, v2)) => Some((p2, (v1, v2))),
            },
        }
    }

    fn parse(&self, stream: Stream, ctx: &mut Context) -> (r: PResult<(A::Result, B::Result)>) {
        let (s1, r1) = match self.a.parse(stream, ctx) {
            Ok(p) => p,
            Err(e) => return Err(e),
        };
        let (s2, r2) = match self.b.parse(s1, ctx) {
            Ok(p) => p,
            Err(e) => return Err(e),
        };
        s2.ok((r1, r2))
    }
}

/// Succeed with `a`'s result only if `b` fails at `a`'s starting position;
/// fail with "unexpected `label`" when `b` succeeds there.
pub struct AndNot<A, B> {
    /// The unit whose result is kept.
    pub a: A,
    /// The unit that must fail at the starting position.
    pub b: B,
    /// How to name `b` in the failure message.
    pub label: String,
}

impl<A: Parser, B: Parser> Parser for AndNot<A, B> {
    type Result = A::Result;

    open spec fn wf(&self) -> bool {
        self.a.wf() && self.b.wf()
    }

    open spec fn spec_parse(&self, text: Seq<char>, pos: int) -> Option<
        (int, <A::Result as DeepView>::V),
    > {
        match self.a.spec_parse(text, pos) {
            None => None,
            Some((p1, v1)) => if self.b.spec_parse(text, pos) is Some {
                None
            } else {
                Some((p1, v1))
            },
        }
    }

    fn parse(&self, stream: Stream, ctx: &mut Context) -> (r: PResult<A::Result>)
        ensures
            r matches Err(e) ==> ((!old(ctx).catcher.is_started && self.a.spec_parse(
                old(ctx).text@,
                stream.pos as int,
            ) is Some && self.b.spec_parse(old(ctx).text@, stream.pos as int) is Some)
                ==> e@.stream == stream && e@.msgs == seq![
                MsgV::Text("unexpected "@ + self.label@),
            ]),
    {
        let (s1, r1) = match self.a.parse(stream, ctx) {
            Ok(p) => p,
            Err(e) => return Err(e),
        };
        let offending = match self.b.parse(stream, ctx) {
            Ok(_) => true,
            Err(_) => false,
        };
        if offending {
            let mut msg = String::from_str("unexpected ");
            msg.append(self.label.as_str());
            stream.err(ErrorMessage::Text(msg), ctx)
        } else {
            s1.ok(r1)
        }
    }
}

/// Run `a`, then the sequence-producing `b`, and place `a`'s value at the
/// front of the resulting sequence.
pub struct Prepend<A, B> {
    /// Produces the head element.
    pub a: A,
    /// Produces the tail sequence.
    pub b: B,
}

impl<A: Parser, B: Parser<Result = Vec<A::Result>>> Parser for Prepend<A, B> {
    type Result = Vec<A::Result>;

    open spec fn wf(&self) -> bool {
        self.a.wf() && self.b.wf()
    }

    open spec fn spec_parse(&self, text: Seq<char>, pos: int) -> Option<
        (int, Seq<<A::Result as DeepView>::V>),
    > {
        match self.a.spec_parse(text, pos) {
            None => None,
            Some((p1, v1)) => match self.b.spec_parse(text, p1) {
                None => None,
                Some((p2, vs)) => Some((p2, seq![v1] + vs)),
            },
        }
    }

    fn parse(&self, stream: Stream, ctx: &mut Context) -> (r: PResult<Vec<A::Result>>) {
        let (s1, r1) = match self.a.parse(stream, ctx) {
            Ok(p) => p,
            Err(e) => return Err(e),
        };
        let ghost r1v = r1.deep_view();
        let (s2, mut rest) = match self.b.parse(s1, ctx) {
            Ok(p) => p,
            Err(e) => return Err(e),
        };
        let ghost tail = rest.deep_view();
        rest.insert(0, r1);
        proof {
            assert(rest.deep_view() =~= seq![r1v] + tail);
        }
        s2.ok(rest)
    }
}

/// Try `a`; on failure register the error for diagnostics and succeed with
/// an absent value, consuming nothing. Never fails.
pub struct Opt<A> {
    /// The unit made optional.
    pub a: A,
}

impl<A: Parser> Parser for Opt<A> {
    type Result = Option<A::Result>;

    open spec fn wf(&self) -> bool {
        self.a.wf()
    }

    open spec fn spec_parse(&self, text: Seq<char>, pos: int) -> Option<
        (int, Option<<A::Result as DeepView>::V>),
    > {
        match self.a.spec_parse(text, pos) {
            Some((p1, v1)) => Some((p1, Some(v1))),
            None => Some((pos, None)),
        }
    }

    fn parse(&self, stream: Stream, ctx: &mut Context) -> (r: PResult<Option<A::Result>>) {
        match self.a.parse(stream, ctx) {
            Ok((s, v)) => s.ok(Some(v)),
            Err(err) => {
                let _ = stream.catch(err, ctx);
                stream.ok(None)
            },
        }
    }
}

/// Apply `a` from `stream` until it fails (registering that terminating
/// failure with the tracker) or until it succeeds without consuming; collect
/// the values. The cursor returned is where the last successful attempt
/// ended: the terminating attempt consumes nothing.
fn run_many<A: Parser>(a: &A, stream: Stream, ctx: &mut Context) -> (r: (Stream, Vec<A::Result>))
    requires
        a.wf(),
        stream.wf(),
        old(ctx).wf(),
        stream.len == old(ctx).text@.len(),
    ensures
        final(ctx).wf(),
        final(ctx).text == old(ctx).text,
        final(ctx).catcher.is_started == old(ctx).catcher.is_started,
        !old(ctx).catcher.is_started ==> final(ctx).catcher == old(ctx).catcher,
        final(ctx).catcher.rest() <= old(ctx).catcher.rest(),
        r.0.wf(),
        r.0.len == stream.len,
        stream.pos <= r.0.pos,
        spec_many(*a, old(ctx).text@, stream.pos as int) == (r.0.pos as int, r.1.deep_view()),
{
    let ghost text = old(ctx).text@;
    let mut cur = stream;
    let mut result: Vec<A::Result> = Vec::new();
    loop
        invariant
            a.wf(),
            cur.wf(),
            ctx.wf(),
            cur.len == stream.len,
            stream.pos <= cur.pos,
            ctx.text@ == text,
            ctx.text == old(ctx).text,
            stream.len == text.len(),
            ctx.catcher.is_started == old(ctx).catcher.is_started,
            !old(ctx).catcher.is_started ==> ctx.catcher == old(ctx).catcher,
            ctx.catcher.rest() <= old(ctx).catcher.rest(),
            ({
                let (e, vs) = spec_many(*a, text, cur.pos as int);
                spec_many(*a, text, stream.pos as int) == (e, result.deep_view() + vs)
            }),
        decreases stream.len - cur.pos,
    {
        match a.parse(cur, ctx) {
            Ok((s2, v)) => {
                if s2.pos == cur.pos {
                    proof {
                        assert(result.deep_view() + Seq::<<A::Result as DeepView>::V>::empty()
                            =~= result.deep_view());
                    }
                    return (cur, result);
                }
                let ghost before = result.deep_view();
                let ghost vv = v.deep_view();
                result.push(v);
                proof {
                    assert(result.deep_view() =~= before.push(vv));
                    let (e2, vs2) = spec_many(*a, text, s2.pos as int);
                    assert(spec_many(*a, text, cur.pos as int) == (e2, seq![vv] + vs2));
                    assert(before.push(vv) + vs2 =~= before + (seq![vv] + vs2));
                }
                cur = s2;
            },
            Err(err) => {
                proof {
                    assert(result.deep_view() + Seq::<<A::Result as DeepView>::V>::empty()
                        =~= result.deep_view());
                }
                let _ = cur.catch(err, ctx);
                return (cur, result);
            },
        }
    }
}

/// Apply `a` until it fails; register the terminating failure; succeed with
/// the (possibly empty) collected sequence. Never fails. An attempt that
/// succeeds without consuming also terminates the repetition (it would
/// otherwise repeat forever).
pub struct Many<A> {
    /// The repeated unit.
    pub a: A,
}

impl<A: Parser> Parser for Many<A> {
    type Result = Vec<A::Result>;

    open spec fn wf(&self) -> bool {
        self.a.wf()
    }

    open spec fn spec_parse(&self, text: Seq<char>, pos: int) -> Option<
        (int, Seq<<A::Result as DeepView>::V>),
    > {
        let (e, vs) = spec_many(self.a, text, pos);
        Some((e, vs))
    }

    fn parse(&self, stream: Stream, ctx: &mut Context) -> (r: PResult<Vec<A::Result>>) {
        let (s, vs) = run_many(&self.a, stream, ctx);
        s.ok(vs)
    }
}

/// Sequence two units, keeping only the second result.
pub struct IgnorePrev<A, B> {
    /// Runs first; its result is dropped.
    pub a: A,
    /// Runs second; its result is kept.
    pub b: B,
}

impl<A: Parser, B: Parser> Parser for IgnorePrev<A, B> {
    type Result = B::Result;

    open spec fn wf(&self) -> bool {
        self.a.wf() && self.b.wf()
    }

    open spec fn spec_parse(&self, text: Seq<char>, pos: int) -> Option<
        (int, <B::Result as DeepView>::V),
    > {
        match self.a.spec_parse(text, pos) {
            None => None,
            Some((p1, _)) => self.b.spec_parse(text, p1),
        }
    }

    fn parse(&self, stream: Stream, ctx: &mut Context) -> (r: PResult<B::Result>) {
        let (s1, _) = match self.a.parse(stream, ctx) {
            Ok(p) => p,
            Err(e) => return Err(e),
        };
        self.b.parse(s1, ctx)
    }
}

/// Sequence two units, keeping only the first result.
pub struct IgnoreThis<A, B> {
    /// Runs first; its result is kept.
    pub a: A,
    /// Runs second; its result is dropped.
    pub b: B,
}

impl<A: Parser, B: Parser> Parser for IgnoreThis<A, B> {
    type Result = A::Result;

    open spec fn wf(&self) -> bool {
        self.a.wf() && self.b.wf()
    }

    open spec fn spec_parse(&self, text: Seq<char>, pos: int) -> Option<
        (int, <A::Result as DeepView>::V),
    > {
        match self.a.spec_parse(text, pos) {
            None => None,
            Some((p1, v1)) => match self.b.spec_parse(text, p1) {
                None => None,
                Some((p2, _)) => Some((p2, v1)),
            },
        }
    }

    fn parse(&self, stream: Stream, ctx: &mut Context) -> (r: PResult<A::Result>) {
        let (s1, r1) = match self.a.parse(stream, ctx) {
            Ok(p) => p,
            Err(e) => return Err(e),
        };
        let (s2, _) = match self.b.parse(s1, ctx) {
            Ok(p) => p,
            Err(e) => return Err(e),
        };
        s2.ok(r1)
    }
}

/// Apply repeat-zero-or-more to `a`, then require the resulting count to lie
/// in `min..=max`; fail otherwise.
pub struct InRange<A> {
    /// The repeated unit.
    pub a: A,
    /// Fewest repetitions accepted.
    pub min: usize,
    /// Most repetitions accepted.
    pub max: usize,
}

impl<A: Parser> Parser for InRange<A> {
    type Result = Vec<A::Result>;

    open spec fn wf(&self) -> bool {
        self.a.wf()
    }

    open spec fn spec_parse(&self, text: Seq<char>, pos: int) -> Option<
        (int, Seq<<A::Result as DeepView>::V>),
    > {
        let (e, vs) = spec_many(self.a, text, pos);
        if self.min <= vs.len() <= self.max {
            Some((e, vs))
        } else {
            None
        }
    }

    fn parse(&self, stream: Stream, ctx: &mut Context) -> (r: PResult<Vec<A::Result>>)
        ensures
            r matches Err(e) ==> (!old(ctx).catcher.is_started ==> e@.stream == stream
                && e@.msgs == seq![MsgV::Text("repetition count out of range"@)]),
    {
        let (s, vs) = run_many(&self.a, stream, ctx);
        if self.min <= vs.len() && vs.len() <= self.max {
            s.ok(vs)
        } else {
            stream.err(ErrorMessage::Text(String::from_str("repetition count out of range")), ctx)
        }
    }
}

/// Transform `a`'s success value with `f`; failures pass through untouched.
/// The ghost `gf` names what `f` computes, value for value; well-formedness
/// ties the two together.
pub struct Mapped<A: Parser, R: DeepView, F> {
    /// The unit whose value is transformed.
    pub a: A,
    /// The transformation.
    pub f: F,
    /// What the transformation computes, at the specification level.
    pub gf: Ghost<spec_fn(<A::Result as DeepView>::V) -> <R as DeepView>::V>,
}

impl<A: Parser, R: DeepView, F: Fn(A::Result) -> R> Parser for Mapped<A, R, F> {
    type Result = R;

    open spec fn wf(&self) -> bool {
        &&& self.a.wf()
        &&& forall|v: A::Result| #[trigger] call_requires(self.f, (v,))
        &&& forall|v: A::Result, r: R| #[trigger]
            call_ensures(self.f, (v,), r) ==> r.deep_view() == (self.gf@)(v.deep_view())
    }

    open spec fn spec_parse(&self, text: Seq<char>, pos: int) -> Option<(int, <R as DeepView>::V)> {
        match self.a.spec_parse(text, pos) {
            None => None,
            Some((p1, v1)) => Some((p1, (self.gf@)(v1))),
        }
    }

    fn parse(&self, stream: Stream, ctx: &mut Context) -> (r: PResult<R>) {
        let (s1, v1) = match self.a.parse(stream, ctx) {
            Ok(p) => p,
            Err(e) => return Err(e),
        };
        let mapped = (self.f)(v1);
        s1.ok(mapped)
    }
}

/// Replace a unit's success value with a fixed character: a specialization
/// of `map` to a constant, as `as_string` is to concatenation.
pub struct ToChar<A> {
    /// The unit that must succeed.
    pub a: A,
    /// The value yielded in its place.
    pub c: char,
}

impl<A: Parser> Parser for ToChar<A> {
    type Result = char;

    open spec fn wf(&self) -> bool {
        self.a.wf()
    }

    open spec fn spec_parse(&self, text: Seq<char>, pos: int) -> Option<(int, char)> {
        match self.a.spec_parse(text, pos) {
            None => None,
            Some((p1, _)) => Some((p1, self.c)),
        }
    }

    fn parse(&self, stream: Stream, ctx: &mut Context) -> (r: PResult<char>) {
        let (s1, _) = match self.a.parse(stream, ctx) {
            Ok(p) => p,
            Err(e) => return Err(e),
        };
        s1.ok(self.c)
    }
}

/// Relies on `Iterator::collect` for `String`: the string of exactly the
/// given characters, in order.
#[verifier::external_body]
pub(crate) fn chars_to_string(chars: &Vec<char>) -> (r: String)
    ensures
        r@ == chars@,
{
    chars.iter().collect()
}

/// Concatenate a sequence of characters into a text value.
pub struct AsString<A> {
    /// The unit producing the characters.
    pub a: A,
}

impl<A: Parser<Result = Vec<char>>> Parser for AsString<A> {
    type Result = String;

    open spec fn wf(&self) -> bool {
        self.a.wf()
    }

    open spec fn spec_parse(&self, text: Seq<char>, pos: int) -> Option<(int, Seq<char>)> {
        self.a.spec_parse(text, pos)
    }

    fn parse(&self, stream: Stream, ctx: &mut Context) -> (r: PResult<String>) {
        let (s1, cs) = match self.a.parse(stream, ctx) {
            Ok(p) => p,
            Err(e) => return Err(e),
        };
        let text = chars_to_string(&cs);
        proof {
            assert(cs.deep_view() =~= cs@);
        }
        s1.ok(text)
    }
}

/// One or more repetitions of `a`: `a`, then repeat-zero-or-more of `a`,
/// with `a`'s first value at the front. Fails exactly when the very first
/// attempt fails.
pub struct OneOrMore<A> {
    /// The repeated unit.
    pub a: A,
}

impl<A: Parser> Parser for OneOrMore<A> {
    type Result = Vec<A::Result>;

    open spec fn wf(&self) -> bool {
        self.a.wf()
    }

    open spec fn spec_parse(&self, text: Seq<char>, pos: int) -> Option<
        (int, Seq<<A::Result as DeepView>::V>),
    > {
        match self.a.spec_parse(text, pos) {
            None => None,
            Some((p1, v1)) => if pos < p1 <= text.len() {
                let (e, vs) = spec_many(self.a, text, p1);
                Some((e, seq![v1] + vs))
            } else {
                Some((pos, seq![v1]))
            },
        }
    }

    fn parse(&self, stream: Stream, ctx: &mut Context) -> (r: PResult<Vec<A::Result>>) {
        let (s1, v1) = match self.a.parse(stream, ctx) {
            Ok(p) => p,
            Err(e) => return Err(e),
        };
        let ghost v1v = v1.deep_view();
        if s1.pos == stream.pos {
            let mut vs: Vec<A::Result> = Vec::new();
            vs.push(v1);
            proof {
                assert(vs.deep_view() =~= seq![v1v]);
            }
            return s1.ok(vs);
        }
        let (s2, mut vs) = run_many(&self.a, s1, ctx);
        let ghost tail = vs.deep_view();
        vs.insert(0, v1);
        proof {
            assert(vs.deep_view() =~= seq![v1v] + tail);
        }
        s2.ok(vs)
    }
}

/// Like `opt`, but yield the given fallback value instead of an absent one.
pub struct OptDefault<A: Parser> {
    /// The unit made optional.
    pub a: A,
    /// Yielded, without consuming, when `a` fails.
    pub fallback: A::Result,
}

impl<A: Parser> Parser for OptDefault<A> where A::Result: Copy {
    type Result = A::Result;

    open spec fn wf(&self) -> bool {
        self.a.wf()
    }

    open spec fn spec_parse(&self, text: Seq<char>, pos: int) -> Option<
        (int, <A::Result as DeepView>::V),
    > {
        match self.a.spec_parse(text, pos) {
            Some((p1, v1)) => Some((p1, v1)),
            None => Some((pos, self.fallback.deep_view())),
        }
    }

    fn parse(&self, stream: Stream, ctx: &mut Context) -> (r: PResult<A::Result>) {
        match self.a.parse(stream, ctx) {
            Ok(p) => Ok(p),
            Err(err) => {
                let _ = stream.catch(err, ctx);
                stream.ok(self.fallback)
            },
        }
    }
}

/// Run the separator-and-item unit repeatedly after a first item: the
/// repetition stops at the first failure of the pair (registering it), or at
/// a pair that consumes nothing.
fn run_sep_items<A: Parser, S: Parser>(
    item: &A,
    sep: &S,
    stream: Stream,
    ctx: &mut Context,
) -> (r: (Stream, Vec<A::Result>))
    requires
        item.wf(),
        sep.wf(),
        stream.wf(),
        old(ctx).wf(),
        stream.len == old(ctx).text@.len(),
    ensures
        final(ctx).wf(),
        final(ctx).text == old(ctx).text,
        final(ctx).catcher.is_started == old(ctx).catcher.is_started,
        !old(ctx).catcher.is_started ==> final(ctx).catcher == old(ctx).catcher,
        final(ctx).catcher.rest() <= old(ctx).catcher.rest(),
        r.0.wf(),
        r.0.len == stream.len,
        stream.pos <= r.0.pos,
        spec_many((IgnorePrev { a: *sep, b: *item }), old(ctx).text@, stream.pos as int) == (
            r.0.pos as int,
            r.1.deep_view(),
        ),
{
    let ghost text = old(ctx).text@;
    let ghost unit = IgnorePrev { a: *sep, b: *item };
    let mut cur = stream;
    let mut result: Vec<A::Result> = Vec::new();
    loop
        invariant
            item.wf(),
            sep.wf(),
            cur.wf(),
            ctx.wf(),
            cur.len == stream.len,
            stream.pos <= cur.pos,
            ctx.text@ == text,
            ctx.text == old(ctx).text,
            stream.len == text.len(),
            ctx.catcher.is_started == old(ctx).catcher.is_started,
            !old(ctx).catcher.is_started ==> ctx.catcher == old(ctx).catcher,
            ctx.catcher.rest() <= old(ctx).catcher.rest(),
            unit == (IgnorePrev { a: *sep, b: *item }),
            ({
                let (e, vs) = spec_many(unit, text, cur.pos as int);
                spec_many(unit, text, stream.pos as int) == (e, result.deep_view() + vs)
            }),
        decreases stream.len - cur.pos,
    {
        let ghost empty_tail = Seq::<<A::Result as DeepView>::V>::empty();
        let s1 = match sep.parse(cur, ctx) {
            Ok((s1, _)) => s1,
            Err(err) => {
                proof {
                    assert(unit.spec_parse(text, cur.pos as int) is None);
                    assert(result.deep_view() + empty_tail =~= result.deep_view());
                }
                let _ = cur.catch(err, ctx);
                return (cur, result);
            },
        };
        match item.parse(s1, ctx) {
            Ok((s2, v)) => {
                proof {
                    assert(unit.spec_parse(text, cur.pos as int) == Some(
                        (s2.pos as int, v.deep_view()),
                    ));
                }
                if s2.pos == cur.pos {
                    proof {
                        assert(result.deep_view() + empty_tail =~= result.deep_view());
                    }
                    return (cur, result);
                }
                let ghost before = result.deep_view();
                let ghost vv = v.deep_view();
                result.push(v);
                proof {
                    assert(result.deep_view() =~= before.push(vv));
                    let (e2, vs2) = spec_many(unit, text, s2.pos as int);
                    assert(spec_many(unit, text, cur.pos as int) == (e2, seq![vv] + vs2));
                    assert(before.push(vv) + vs2 =~= before + (seq![vv] + vs2));
                }
                cur = s2;
            },
            Err(err) => {
                proof {
                    assert(unit.spec_parse(text, cur.pos as int) is None);
                    assert(result.deep_view() + empty_tail =~= result.deep_view());
                }
                let _ = cur.catch(err, ctx);
                return (cur, result);
            },
        }
    }
}

/// One or more `item`s separated by `sep`; the separators' values are
/// dropped.
pub struct List<A, S> {
    /// The element unit.
    pub item: A,
    /// The separator unit.
    pub sep: S,
}

impl<A: Parser, S: Parser> Parser for List<A, S> {
    type Result = Vec<A::Result>;

    open spec fn wf(&self) -> bool {
        self.item.wf() && self.sep.wf()
    }

    open spec fn spec_parse(&self, text: Seq<char>, pos: int) -> Option<
        (int, Seq<<A::Result as DeepView>::V>),
    > {
        match self.item.spec_parse(text, pos) {
            None => None,
            Some((p1, v1)) => if pos < p1 <= text.len() {
                let (e, vs) = spec_many((IgnorePrev { a: self.sep, b: self.item }), text, p1);
                Some((e, seq![v1] + vs))
            } else {
                Some((pos, seq![v1]))
            },
        }
    }

    fn parse(&self, stream: Stream, ctx: &mut Context) -> (r: PResult<Vec<A::Result>>) {
        let (s1, v1) = match self.item.parse(stream, ctx) {
            Ok(p) => p,
            Err(e) => return Err(e),
        };
        let ghost v1v = v1.deep_view();
        if s1.pos == stream.pos {
            let mut vs: Vec<A::Result> = Vec::new();
            vs.push(v1);
            proof {
                assert(vs.deep_view() =~= seq![v1v]);
            }
            return s1.ok(vs);
        }
        let (s2, mut vs) = run_sep_items(&self.item, &self.sep, s1, ctx);
        let ghost tail = vs.deep_view();
        vs.insert(0, v1);
        proof {
            assert(vs.deep_view() =~= seq![v1v] + tail);
        }
        s2.ok(vs)
    }
}

/// Like [`List`], but additionally permit and discard one optional trailing
/// separator after the last element.
pub struct ListTrailing<A, S> {
    /// The element unit.
    pub item: A,
    /// The separator unit.
    pub sep: S,
}

impl<A: Parser, S: Parser> Parser for ListTrailing<A, S> {
    type Result = Vec<A::Result>;

    open spec fn wf(&self) -> bool {
        self.item.wf() && self.sep.wf()
    }

    open spec fn spec_parse(&self, text: Seq<char>, pos: int) -> Option<
        (int, Seq<<A::Result as DeepView>::V>),
    > {
        match (List { item: self.item, sep: self.sep }).spec_parse(text, pos) {
            None => None,
            Some((e, vs)) => match self.sep.spec_parse(text, e) {
                Some((e2, _)) => Some((e2, vs)),
                None => Some((e, vs)),
            },
        }
    }

    fn parse(&self, stream: Stream, ctx: &mut Context) -> (r: PResult<Vec<A::Result>>) {
        let (s1, v1) = match self.item.parse(stream, ctx) {
            Ok(p) => p,
            Err(e) => return Err(e),
        };
        let ghost v1v = v1.deep_view();
        let (cur, vs) = if s1.pos == stream.pos {
            let mut vs: Vec<A::Result> = Vec::new();
            vs.push(v1);
            proof {
                assert(vs.deep_view() =~= seq![v1v]);
            }
            (s1, vs)
        } else {
            let (s2, mut vs) = run_sep_items(&self.item, &self.sep, s1, ctx);
            let ghost tail = vs.deep_view();
            vs.insert(0, v1);
            proof {
                assert(vs.deep_view() =~= seq![v1v] + tail);
            }
            (s2, vs)
        };
        match self.sep.parse(cur, ctx) {
            Ok((s3, _)) => s3.ok(vs),
            Err(err) => {
                let _ = cur.catch(err, ctx);
                cur.ok(vs)
            },
        }
    }
}

/// A named rule around `a`. While `a` runs, registration with the tracker is
/// suppressed (the flag is saved and restored exactly, so nested named rules
/// compose); on failure, `a`'s entire message set is replaced by the single
/// structured "expected rule" message. The tracker is left exactly as it
/// was.
pub struct Rule<A> {
    /// The wrapped unit.
    pub a: A,
    /// The rule's name, shown as the only expectation on failure.
    pub name: String,
}

impl<A: Parser> Parser for Rule<A> {
    type Result = A::Result;

    open spec fn wf(&self) -> bool {
        self.a.wf()
    }

    open spec fn spec_parse(&self, text: Seq<char>, pos: int) -> Option<
        (int, <A::Result as DeepView>::V),
    > {
        self.a.spec_parse(text, pos)
    }

    fn parse(&self, stream: Stream, ctx: &mut Context) -> (r: PResult<A::Result>)
        ensures
            final(ctx).catcher == old(ctx).catcher,
            r matches Err(e) ==> e@.msgs == seq![MsgV::Expected(ExpectedV::Rule(self.name@))]
                && stream.pos <= e.stream.pos,
    {
        let was = ctx.catcher.set_started(false);
        let attempt = self.a.parse(stream, ctx);
        let _ = ctx.catcher.set_started(was);
        match attempt {
            Ok(p) => Ok(p),
            Err(err) => {
                let msg = ErrorMessage::Expected(Expected::Rule(self.name.clone()));
                Err(Error::new(err.stream, msg))
            },
        }
    }
}

// What each combinator's well-formedness and meaning unfold to. Verus does
// not unfold these spec functions at instantiations whose type arguments
// contain closures (as built by `map`); these broadcast equations restore
// the definitions there.

/// [`Or::wf`], as an equation.
pub broadcast proof fn lemma_or_wf<A: Parser, B: Parser<Result = A::Result>>(o: Or<A, B>)
    ensures
        #[trigger] o.wf() == (o.a.wf() && o.b.wf()),
{
}

/// [`Or::spec_parse`], as an equation.
pub broadcast proof fn lemma_or_spec<A: Parser, B: Parser<Result = A::Result>>(
    o: Or<A, B>,
    text: Seq<char>,
    pos: int,
)
    ensures
        #[trigger] o.spec_parse(text, pos) == (match o.a.spec_parse(text, pos) {
            Some(r) => Some(r),
            None => o.b.spec_parse(text, pos),
        }),
{
}

/// [`AndNot::wf`], as an equation.
pub broadcast proof fn lemma_and_not_wf<A: Parser, B: Parser>(o: AndNot<A, B>)
    ensures
        #[trigger] o.wf() == (o.a.wf() && o.b.wf()),
{
}

/// [`AndNot::spec_parse`], as an equation.
pub broadcast proof fn lemma_and_not_spec<A: Parser, B: Parser>(
    o: AndNot<A, B>,
    text: Seq<char>,
    pos: int,
)
    ensures
        #[trigger] o.spec_parse(text, pos) == (match o.a.spec_parse(text, pos) {
            None => None,
            Some((p1, v1)) => if o.b.spec_parse(text, pos) is Some {
                None
            } else {
                Some((p1, v1))
            },
        }),
{
}

/// [`Prepend::wf`], as an equation.
pub broadcast proof fn lemma_prepend_wf<A: Parser, B: Parser<Result = Vec<A::Result>>>(
    o: Prepend<A, B>,
)
    ensures
        #[trigger] o.wf() == (o.a.wf() && o.b.wf()),
{
}

/// [`Prepend::spec_parse`], as an equation.
pub broadcast proof fn lemma_prepend_spec<A: Parser, B: Parser<Result = Vec<A::Result>>>(
    o: Prepend<A, B>,
    text: Seq<char>,
    pos: int,
)
    ensures
        #[trigger] o.spec_parse(text, pos) == (match o.a.spec_parse(text, pos) {
            None => None,
            Some((p1, v1)) => match o.b.spec_parse(text, p1) {
                None => None,
                Some((p2, vs)) => Some((p2, seq![v1] + vs)),
            },
        }),
{
}

/// [`Many::wf`], as an equation.
pub broadcast proof fn lemma_many_wf<A: Parser>(o: Many<A>)
    ensures
        #[trigger] o.wf() == o.a.wf(),
{
}

/// [`Many::spec_parse`], as an equation.
pub broadcast proof fn lemma_many_spec<A: Parser>(o: Many<A>, text: Seq<char>, pos: int)
    ensures
        #[trigger] o.spec_parse(text, pos) == {
            let (e, vs) = spec_many(o.a, text, pos);
            Some((e, vs))
        },
{
}

/// One unfolding step of [`spec_many`], as an equation.
pub broadcast proof fn lemma_spec_many_step<A: Parser>(a: A, text: Seq<char>, pos: int)
    ensures
        #[trigger] spec_many(a, text, pos) == (match a.spec_parse(text, pos) {
            None => (pos, Seq::<<A::Result as DeepView>::V>::empty()),
            Some((end, v)) => if pos < end <= text.len() {
                let (e2, vs) = spec_many(a, text, end);
                (e2, seq![v] + vs)
            } else {
                (pos, Seq::<<A::Result as DeepView>::V>::empty())
            },
        }),
{
}

/// [`InRange::wf`], as an equation.
pub broadcast proof fn lemma_in_range_wf<A: Parser>(o: InRange<A>)
    ensures
        #[trigger] o.wf() == o.a.wf(),
{
}

/// [`InRange::spec_parse`], as an equation.
pub broadcast proof fn lemma_in_range_spec<A: Parser>(o: InRange<A>, text: Seq<char>, pos: int)
    ensures
        #[trigger] o.spec_parse(text, pos) == {
            let (e, vs) = spec_many(o.a, text, pos);
            if o.min <= vs.len() <= o.max {
                Some((e, vs))
            } else {
                None
            }
        },
{
}

/// [`Mapped::wf`], as an equation.
pub broadcast proof fn lemma_mapped_wf<A: Parser, R: DeepView, F: Fn(A::Result) -> R>(
    o: Mapped<A, R, F>,
)
    ensures
        #[trigger] o.wf() == (o.a.wf() && (forall|v: A::Result| #[trigger] call_requires(
            o.f,
            (v,),
        )) && (forall|v: A::Result, r: R| #[trigger]
            call_ensures(o.f, (v,), r) ==> r.deep_view() == (o.gf@)(v.deep_view()))),
{
}

/// [`Mapped::spec_parse`], as an equation.
pub broadcast proof fn lemma_mapped_spec<A: Parser, R: DeepView, F: Fn(A::Result) -> R>(
    o: Mapped<A, R, F>,
    text: Seq<char>,
    pos: int,
)
    ensures
        #[trigger] o.spec_parse(text, pos) == (match o.a.spec_parse(text, pos) {
            None => None,
            Some((p1, v1)) => Some((p1, (o.gf@)(v1))),
        }),
{
}

/// [`AsString::wf`], as an equation.
pub broadcast proof fn lemma_as_string_wf<A: Parser<Result = Vec<char>>>(o: AsString<A>)
    ensures
        #[trigger] o.wf() == o.a.wf(),
{
}

/// [`AsString::spec_parse`], as an equation.
pub broadcast proof fn lemma_as_string_spec<A: Parser<Result = Vec<char>>>(
    o: AsString<A>,
    text: Seq<char>,
    pos: int,
)
    ensures
        #[trigger] o.spec_parse(text, pos) == o.a.spec_parse(text, pos),
{
}

/// [`IgnorePrev::wf`], as an equation.
pub broadcast proof fn lemma_ignore_prev_wf<A: Parser, B: Parser>(o: IgnorePrev<A, B>)
    ensures
        #[trigger] o.wf() == (o.a.wf() && o.b.wf()),
{
}

/// [`IgnorePrev::spec_parse`], as an equation.
pub broadcast proof fn lemma_ignore_prev_spec<A: Parser, B: Parser>(
    o: IgnorePrev<A, B>,
    text: Seq<char>,
    pos: int,
)
    ensures
        #[trigger] o.spec_parse(text, pos) == (match o.a.spec_parse(text, pos) {
            None => None,
            Some((p1, _)) => o.b.spec_parse(text, p1),
        }),
{
}

/// [`IgnoreThis::wf`], as an equation.
pub broadcast proof fn lemma_ignore_this_wf<A: Parser, B: Parser>(o: IgnoreThis<A, B>)
    ensures
        #[trigger] o.wf() == (o.a.wf() && o.b.wf()),
{
}

/// [`IgnoreThis::spec_parse`], as an equation.
pub broadcast proof fn lemma_ignore_this_spec<A: Parser, B: Parser>(
    o: IgnoreThis<A, B>,
    text: Seq<char>,
    pos: int,
)
    ensures
        #[trigger] o.spec_parse(text, pos) == (match o.a.spec_parse(text, pos) {
            None => None,
            Some((p1, v1)) => match o.b.spec_parse(text, p1) {
                None => None,
                Some((p2, _)) => Some((p2, v1)),
            },
        }),
{
}

/// [`Rule::wf`], as an equation.
pub broadcast proof fn lemma_rule_wf<A: Parser>(o: Rule<A>)
    ensures
        #[trigger] o.wf() == o.a.wf(),
{
}

/// [`Rule::spec_parse`], as an equation.
pub broadcast proof fn lemma_rule_spec<A: Parser>(o: Rule<A>, text: Seq<char>, pos: int)
    ensures
        #[trigger] o.spec_parse(text, pos) == o.a.spec_parse(text, pos),
{
}

/// Ordered choice is left-biased: wherever `a` succeeds, the choice of `a`
/// and `b` has exactly `a`'s outcome — residual position and value —
/// whatever `b` would have done there.
pub proof fn lemma_choice_left_biased<A: Parser, B: Parser<Result = A::Result>>(
    a: A,
    b: B,
    text: Seq<char>,
    pos: int,
)
    requires
        a.spec_parse(text, pos) is Some,
    ensures
        (Or { a, b }).spec_parse(text, pos) == a.spec_parse(text, pos),
{
    lemma_or_spec(Or { a, b }, text, pos);
}

/// Repeat-zero-or-more never fails: at every position its meaning is a
/// success carrying the (possibly empty) collected sequence.
pub proof fn lemma_many_never_fails<A: Parser>(m: Many<A>, text: Seq<char>, pos: int)
    ensures
        m.spec_parse(text, pos) is Some,
        ({
            let (e, vs) = spec_many(m.a, text, pos);
            m.spec_parse(text, pos) == Some((e, vs))
        }),
{
    lemma_many_spec(m, text, pos);
}

/// The attempt that terminates a repetition consumes nothing: at the
/// position where repetition stops, the repeated unit either fails or
/// advances no further.
pub proof fn lemma_many_stops_at_failure<A: Parser>(a: A, text: Seq<char>, pos: int)
    ensures
        ({
            let (e, vs) = spec_many(a, text, pos);
            match a.spec_parse(text, e) {
                None => true,
                Some((e2, _)) => !(e < e2 <= text.len()),
            }
        }),
    decreases text.len() - pos,
{
    match a.spec_parse(text, pos) {
        None => {},
        Some((end, v)) => {
            if pos < end <= text.len() {
                lemma_many_stops_at_failure(a, text, end);
            }
        },
    }
}

/// Optional never fails: at every position its meaning is a success, with
/// the unit's value where the unit succeeds and an absent value, consuming
/// nothing, where it fails.
pub proof fn lemma_optional_never_fails<A: Parser>(o: Opt<A>, text: Seq<char>, pos: int)
    ensures
        o.spec_parse(text, pos) is Some,
        o.a.spec_parse(text, pos) is None ==> o.spec_parse(text, pos) == Some(
            (pos, Option::<<A::Result as DeepView>::V>::None),
        ),
{
}

/// Repeat-one-or-more fails exactly when its unit fails on the very first
/// attempt.
pub proof fn lemma_one_or_more_fails_iff_first<A: Parser>(
    o: OneOrMore<A>,
    text: Seq<char>,
    pos: int,
)
    ensures
        (o.spec_parse(text, pos) is None) == (o.a.spec_parse(text, pos) is None),
{
}

/// The combinator definitional equations, as one group.
pub broadcast group group_combinator_defs {
    lemma_or_wf,
    lemma_or_spec,
    lemma_and_not_wf,
    lemma_and_not_spec,
    lemma_prepend_wf,
    lemma_prepend_spec,
    lemma_many_wf,
    lemma_many_spec,
    lemma_spec_many_step,
    lemma_in_range_wf,
    lemma_in_range_spec,
    lemma_mapped_wf,
    lemma_mapped_spec,
    lemma_as_string_wf,
    lemma_as_string_spec,
    lemma_ignore_prev_wf,
    lemma_ignore_prev_spec,
    lemma_ignore_this_wf,
    lemma_ignore_this_spec,
    lemma_rule_wf,
    lemma_rule_spec,
}

} // verus!

use vstd::prelude::*;
use crate::stream::Stream;

verus! {

/// A structured description of what a failed matcher required.
#[derive(Debug, PartialEq, Eq)]
pub enum Expected {
    /// A literal character.
    Char(char),
    /// A literal string.
    Str(String),
    /// One character out of a fixed set.
    OneOf(String),
    /// A character in a half-open range (end excluded).
    Range(char, char),
    /// A character in an inclusive range.
    RangeInclusive(char, char),
    /// A named grammar rule.
    Rule(String),
}

/// One expectation message: free text, unexpected end of input, or a
/// structured "expected" value.
#[derive(Debug, PartialEq, Eq)]
pub enum ErrorMessage {
    /// Free text.
    Text(String),
    /// The input ended where more was required.
    UnexpectedEOF,
    /// A structured expectation.
    Expected(Expected),
}

/// The mathematical value of an [`Expected`]: strings become character
/// sequences.
pub enum ExpectedV {
    Char(char),
    Str(Seq<char>),
    OneOf(Seq<char>),
    Range(char, char),
    RangeInclusive(char, char),
    Rule(Seq<char>),
}

/// The mathematical value of an [`ErrorMessage`].
pub enum MsgV {
    Text(Seq<char>),
    UnexpectedEOF,
    Expected(ExpectedV),
}

impl View for Expected {
    type V = ExpectedV;

    open spec fn view(&self) -> ExpectedV {
        match self {
            Expected::Char(c) => ExpectedV::Char(*c),
            Expected::Str(s) => ExpectedV::Str(s@),
            Expected::OneOf(s) => ExpectedV::OneOf(s@),
            Expected::Range(a, b) => ExpectedV::Range(*a, *b),
            Expected::RangeInclusive(a, b) => ExpectedV::RangeInclusive(*a, *b),
            Expected::Rule(s) => ExpectedV::Rule(s@),
        }
    }
}

impl View for ErrorMessage {
    type V = MsgV;

    open spec fn view(&self) -> MsgV {
        match self {
            ErrorMessage::Text(s) => MsgV::Text(s@),
            ErrorMessage::UnexpectedEOF => MsgV::UnexpectedEOF,
            ErrorMessage::Expected(e) => MsgV::Expected(e@),
        }
    }
}

impl DeepView for Expected {
    type V = ExpectedV;

    open spec fn deep_view(&self) -> ExpectedV {
        self.view()
    }
}

impl DeepView for ErrorMessage {
    type V = MsgV;

    open spec fn deep_view(&self) -> MsgV {
        self.view()
    }
}

impl Clone for Expected {
    fn clone(&self) -> (r: Self)
        ensures
            r == *self,
    {
        match self {
            Expected::Char(c) => Expected::Char(*c),
            Expected::Str(s) => Expected::Str(s.clone()),
            Expected::OneOf(s) => Expected::OneOf(s.clone()),
            Expected::Range(a, b) => Expected::Range(*a, *b),
            Expected::RangeInclusive(a, b) => Expected::RangeInclusive(*a, *b),
            Expected::Rule(s) => Expected::Rule(s.clone()),
        }
    }
}

impl Clone for ErrorMessage {
    fn clone(&self) -> (r: Self)
        ensures
            r == *self,
    {
        match self {
            ErrorMessage::Text(s) => ErrorMessage::Text(s.clone()),
            ErrorMessage::UnexpectedEOF => ErrorMessage::UnexpectedEOF,
            ErrorMessage::Expected(e) => ErrorMessage::Expected(e.clone()),
        }
    }
}

/// Whether two expectation values are the same message.
pub fn expected_eq(a: &Expected, b: &Expected) -> (r: bool)
    ensures
        r == (a@ == b@),
{
    match (a, b) {
        (Expected::Char(x), Expected::Char(y)) => *x == *y,
        (Expected::Str(x), Expected::Str(y)) => *x == *y,
        (Expected::OneOf(x), Expected::OneOf(y)) => *x == *y,
        (Expected::Range(x1, x2), Expected::Range(y1, y2)) => *x1 == *y1 && *x2 == *y2,
        (Expected::RangeInclusive(x1, x2), Expected::RangeInclusive(y1, y2)) => *x1 == *y1
            && *x2 == *y2,
        (Expected::Rule(x), Expected::Rule(y)) => *x == *y,
        _ => false,
    }
}

/// Whether two messages are the same.
pub fn msg_eq(a: &ErrorMessage, b: &ErrorMessage) -> (r: bool)
    ensures
        r == (a@ == b@),
{
    match (a, b) {
        (ErrorMessage::Text(x), ErrorMessage::Text(y)) => *x == *y,
        (ErrorMessage::UnexpectedEOF, ErrorMessage::UnexpectedEOF) => true,
        (ErrorMessage::Expected(x), ErrorMessage::Expected(y)) => expected_eq(x, y),
        _ => false,
    }
}

/// A failure: the position it occurred at and the deduplicated expectation
/// messages collected there.
#[derive(Debug, PartialEq, Eq)]
pub struct Error {
    /// Where the failure occurred (residual length is the progress measure).
    pub stream: Stream,
    /// The unique expectation messages at that position.
    pub messages: Vec<ErrorMessage>,
}

/// The mathematical value of an [`Error`].
pub struct ErrV {
    /// Where the failure occurred.
    pub stream: Stream,
    /// The messages, as mathematical values, in collection order.
    pub msgs: Seq<MsgV>,
}

impl ErrV {
    /// Residual length at the failure position.
    pub open spec fn rest(&self) -> int {
        self.stream.rest()
    }
}

impl View for Error {
    type V = ErrV;

    open spec fn view(&self) -> ErrV {
        ErrV { stream: self.stream, msgs: self.messages.deep_view() }
    }
}

/// No message occurs twice.
pub open spec fn unique_msgs(ms: Seq<MsgV>) -> bool {
    forall|i: int, j: int| 0 <= i < j < ms.len() ==> ms[i] != ms[j]
}

/// The furthest-wins merge policy. `r` is a valid merge of `a` and `b`: at
/// unequal residual lengths the error that progressed further (smaller
/// residual) survives whole; at equal residual lengths the position is kept
/// and the message sets are unioned (in some order, without duplicates).
pub open spec fn is_merge(a: ErrV, b: ErrV, r: ErrV) -> bool {
    if a.rest() < b.rest() {
        r == a
    } else if b.rest() < a.rest() {
        r == b
    } else {
        &&& r.stream == a.stream
        &&& unique_msgs(r.msgs)
        &&& forall|m: MsgV| r.msgs.contains(m) <==> (a.msgs.contains(m) || b.msgs.contains(m))
    }
}

/// Merging keeps the failure that progressed further, whatever the argument
/// order; merging failures tied at the same depth keeps the position and
/// unions the message sets, whatever the argument order.
pub proof fn lemma_merge_position_precedent(a: ErrV, b: ErrV, r1: ErrV, r2: ErrV)
    requires
        a.stream.len == b.stream.len,
        is_merge(a, b, r1),
        is_merge(b, a, r2),
    ensures
        a.rest() < b.rest() ==> r1 == a && r2 == a,
        b.rest() < a.rest() ==> r1 == b && r2 == b,
        a.rest() == b.rest() ==> {
            &&& r1.stream == a.stream && r2.stream == a.stream
            &&& forall|m: MsgV|
                r1.msgs.contains(m) <==> (a.msgs.contains(m) || b.msgs.contains(m))
            &&& forall|m: MsgV| r1.msgs.contains(m) <==> r2.msgs.contains(m)
        },
{
}

/// Membership in a sequence extended by one element.
proof fn lemma_push_contains(s: Seq<MsgV>, v: MsgV)
    ensures
        forall|m: MsgV| #[trigger] s.push(v).contains(m) <==> (s.contains(m) || m == v),
{
    assert forall|m: MsgV| #[trigger] s.push(v).contains(m) <==> (s.contains(m) || m == v) by {
        if s.push(v).contains(m) {
            let k = choose|k: int| 0 <= k < s.push(v).len() && s.push(v)[k] == m;
            if k < s.len() {
                assert(s[k] == m);
            }
        }
        if s.contains(m) {
            let k = choose|k: int| 0 <= k < s.len() && s[k] == m;
            assert(s.push(v)[k] == m);
        }
        if m == v {
            assert(s.push(v)[s.len() as int] == m);
        }
    }
}

/// Pushing a fresh element keeps a sequence duplicate-free.
proof fn lemma_push_unique(s: Seq<MsgV>, v: MsgV)
    requires
        unique_msgs(s),
        !s.contains(v),
    ensures
        unique_msgs(s.push(v)),
{
    assert forall|p: int, q: int| 0 <= p < q < s.push(v).len() implies s.push(v)[p] != s.push(v)[q]
    by {
        if q == s.len() {
            assert(s.contains(s[p]));
        }
    }
}

/// Whether `m` already occurs in `ms`.
fn contains_msg(ms: &Vec<ErrorMessage>, m: &ErrorMessage) -> (r: bool)
    ensures
        r == ms.deep_view().contains(m@),
{
    let mut i: usize = 0;
    while i < ms.len()
        invariant
            i <= ms.len(),
            forall|k: int| 0 <= k < i ==> ms.deep_view()[k] != m@,
        decreases ms.len() - i,
    {
        if msg_eq(&ms[i], m) {
            assert(ms.deep_view()[i as int] == m@);
            return true;
        }
        i = i + 1;
    }
    false
}

impl Error {
    /// Well-formed: the position is valid and no message is recorded twice.
    pub open spec fn wf(&self) -> bool {
        &&& self.stream.wf()
        &&& unique_msgs(self.messages.deep_view())
    }

    /// Residual length at the failure position.
    pub open spec fn rest(&self) -> int {
        self.stream.rest()
    }

    /// An error at `stream`'s position carrying the one given message.
    pub fn new(stream: Stream, message: ErrorMessage) -> (r: Error)
        requires
            stream.wf(),
        ensures
            r.wf(),
            r.stream == stream,
            r@.msgs == seq![message@],
    {
        let messages = vec![message];
        assert(messages.deep_view() =~= seq![message@]);
        Error { stream, messages }
    }

    /// Merge two errors by the furthest-wins policy: at unequal residual
    /// lengths keep the one that progressed further; at equal residual
    /// lengths keep the position and union the message sets.
    pub fn or(self, error: Error) -> (r: Error)
        requires
            self.wf(),
            error.wf(),
            self.stream.len == error.stream.len,
        ensures
            r.wf(),
            r.stream.len == self.stream.len,
            is_merge(self@, error@, r@),
            r.rest() <= self.rest() && r.rest() <= error.rest(),
    {
        let self_rest = self.stream.rest_len();
        let other_rest = error.stream.rest_len();
        if self_rest == other_rest {
            let sstream = self.stream;
            let mut merged = self;
            let other = error.messages;
            let ghost orig = merged.messages.deep_view();
            let ghost other_dv = other.deep_view();
            let mut i: usize = 0;
            while i < other.len()
                invariant
                    i <= other.len(),
                    other.deep_view() == other_dv,
                    merged.stream == sstream,
                    unique_msgs(merged.messages.deep_view()),
                    forall|m: MsgV| #[trigger]
                        merged.messages.deep_view().contains(m) <==> (orig.contains(m)
                            || other_dv.take(i as int).contains(m)),
                decreases other.len() - i,
            {
                let ghost before = merged.messages.deep_view();
                let ghost cur = other_dv[i as int];
                let present = contains_msg(&merged.messages, &other[i]);
                if !present {
                    merged.messages.push(other[i].clone());
                    proof {
                        assert(merged.messages.deep_view() =~= before.push(cur));
                        lemma_push_contains(before, cur);
                        lemma_push_unique(before, cur);
                    }
                }
                proof {
                    assert(other_dv.take(i + 1) =~= other_dv.take(i as int).push(cur));
                    lemma_push_contains(other_dv.take(i as int), cur);
                    if present {
                        assert(merged.messages.deep_view().contains(cur));
                    }
                }
                i = i + 1;
            }
            proof {
                assert(other_dv.take(other.len() as int) =~= other_dv);
            }
            merged
        } else if self_rest < other_rest {
            self
        } else {
            error
        }
    }
}

impl Clone for Error {
    fn clone(&self) -> (r: Self)
        ensures
            r.stream == self.stream,
            r@ == self@,
    {
        let mut messages: Vec<ErrorMessage> = Vec::new();
        let mut i: usize = 0;
        while i < self.messages.len()
            invariant
                i <= self.messages.len(),
                messages.deep_view() =~= self.messages.deep_view().take(i as int),
                messages@.len() == i,
            decreases self.messages.len() - i,
        {
            let ghost before = messages.deep_view();
            messages.push(self.messages[i].clone());
            proof {
                assert(messages.deep_view() =~= before.push(self.messages@[i as int]@));
                assert(self.messages.deep_view().take(i + 1) =~= self.messages.deep_view().take(
                    i as int,
                ).push(self.messages@[i as int]@));
            }
            i = i + 1;
        }
        proof {
            assert(self.messages.deep_view().take(self.messages@.len() as int)
                =~= self.messages.deep_view());
            assert(ErrV { stream: self.stream, msgs: messages.deep_view() } == self@);
        }
        Error { stream: self.stream, messages }
    }
}

/// How one expectation renders in a message.
pub open spec fn spec_render_expected(e: ExpectedV) -> Seq<char> {
    match e {
        ExpectedV::Char(c) => seq!['\'', c, '\''],
        ExpectedV::Str(s) => seq!['"'] + s + seq!['"'],
        ExpectedV::OneOf(s) => "one of \""@ + s + seq!['"'],
        ExpectedV::Range(a, b) => seq!['\'', a, '\''] + ".."@ + seq!['\'', b, '\''],
        ExpectedV::RangeInclusive(a, b) => seq!['\'', a, '\''] + "..="@ + seq!['\'', b, '\''],
        ExpectedV::Rule(s) => seq!['<'] + s + seq!['>'],
    }
}

/// How one message renders on its own.
pub open spec fn spec_render_msg(m: MsgV) -> Seq<char> {
    match m {
        MsgV::Text(s) => s,
        MsgV::UnexpectedEOF => "unexpected EOF"@,
        MsgV::Expected(e) => spec_render_expected(e),
    }
}

/// The renderings of the expectation messages among `ms`, in order.
pub open spec fn spec_expected_parts(ms: Seq<MsgV>) -> Seq<Seq<char>>
    decreases ms.len(),
{
    if ms.len() == 0 {
        Seq::empty()
    } else {
        let head: Seq<Seq<char>> = match ms[0] {
            MsgV::Expected(e) => seq![spec_render_expected(e)],
            _ => Seq::empty(),
        };
        head + spec_expected_parts(ms.drop_first())
    }
}

/// The renderings of the non-expectation messages among `ms`, in order.
pub open spec fn spec_plain_parts(ms: Seq<MsgV>) -> Seq<Seq<char>>
    decreases ms.len(),
{
    if ms.len() == 0 {
        Seq::empty()
    } else {
        let head: Seq<Seq<char>> = match ms[0] {
            MsgV::Expected(_) => Seq::empty(),
            m => seq![spec_render_msg(m)],
        };
        head + spec_plain_parts(ms.drop_first())
    }
}

/// The parts joined with the separator between them.
pub open spec fn spec_join(parts: Seq<Seq<char>>, sep: Seq<char>) -> Seq<char>
    decreases parts.len(),
{
    if parts.len() == 0 {
        Seq::empty()
    } else if parts.len() == 1 {
        parts[0]
    } else {
        parts[0] + sep + spec_join(parts.drop_first(), sep)
    }
}

/// The rendered message of a whole message set: the non-expectation messages
/// joined with " | ", with all expectations collapsed into one final
/// "expected" clause — a single alternative plainly, several in parentheses
/// separated by " | ".
pub open spec fn spec_message(ms: Seq<MsgV>) -> Seq<char> {
    let ex = spec_expected_parts(ms);
    let pl = spec_plain_parts(ms);
    let parts = if ex.len() == 0 {
        pl
    } else if ex.len() == 1 {
        pl.push("expected "@ + ex[0])
    } else {
        pl.push("expected ("@ + spec_join(ex, " | "@) + seq![')'])
    };
    spec_join(parts, " | "@)
}

/// Appending one more part extends a join by a separator and the part.
proof fn lemma_join_snoc(parts: Seq<Seq<char>>, sep: Seq<char>, x: Seq<char>)
    requires
        parts.len() >= 1,
    ensures
        spec_join(parts.push(x), sep) == spec_join(parts, sep) + sep + x,
    decreases parts.len(),
{
    if parts.len() == 1 {
        assert(parts.push(x).drop_first() =~= seq![x]);
        assert(parts.push(x)[0] == parts[0]);
        assert(spec_join(seq![x], sep) == x);
        assert(spec_join(parts.push(x), sep) == parts[0] + sep + x);
        assert(spec_join(parts, sep) == parts[0]);
    } else {
        assert(parts.push(x).drop_first() =~= parts.drop_first().push(x));
        assert(parts.push(x)[0] == parts[0]);
        lemma_join_snoc(parts.drop_first(), sep, x);
        assert(spec_join(parts.push(x), sep) == parts[0] + sep + (spec_join(
            parts.drop_first(),
            sep,
        ) + sep + x));
        assert(parts[0] + sep + (spec_join(parts.drop_first(), sep) + sep + x) =~= (parts[0] + sep
            + spec_join(parts.drop_first(), sep)) + sep + x);
    }
}

/// One more message extends the part lists by its rendering, on the side its
/// kind selects.
proof fn lemma_parts_snoc(ms: Seq<MsgV>, m: MsgV)
    ensures
        spec_expected_parts(ms.push(m)) == spec_expected_parts(ms) + (match m {
            MsgV::Expected(e) => seq![spec_render_expected(e)],
            _ => Seq::<Seq<char>>::empty(),
        }),
        spec_plain_parts(ms.push(m)) == spec_plain_parts(ms) + (match m {
            MsgV::Expected(_) => Seq::<Seq<char>>::empty(),
            mm => seq![spec_render_msg(mm)],
        }),
    decreases ms.len(),
{
    if ms.len() == 0 {
        assert(ms.push(m)[0] == m);
        assert(ms.push(m).drop_first() =~= ms);
        assert(spec_expected_parts(ms) =~= Seq::<Seq<char>>::empty());
        assert(spec_plain_parts(ms) =~= Seq::<Seq<char>>::empty());
        match m {
            MsgV::Expected(e) => {
                assert(spec_expected_parts(ms.push(m)) =~= seq![spec_render_expected(e)]);
                assert(spec_plain_parts(ms.push(m)) =~= Seq::<Seq<char>>::empty());
            },
            mm => {
                assert(spec_expected_parts(ms.push(m)) =~= Seq::<Seq<char>>::empty());
                assert(spec_plain_parts(ms.push(m)) =~= seq![spec_render_msg(mm)]);
            },
        }
    } else {
        assert(ms.push(m)[0] == ms[0]);
        assert(ms.push(m).drop_first() =~= ms.drop_first().push(m));
        lemma_parts_snoc(ms.drop_first(), m);
    }
}

/// Append the characters of `s`.
fn push_str_chars(buf: &mut Vec<char>, s: &str)
    ensures
        final(buf)@ == old(buf)@ + s@,
{
    let n = s.unicode_len();
    let mut i: usize = 0;
    while i < n
        invariant
            i <= n,
            n == s@.len(),
            buf@ == old(buf)@ + s@.take(i as int),
        decreases n - i,
    {
        let ghost before = buf@;
        buf.push(s.get_char(i));
        proof {
            assert(s@.take(i + 1) =~= s@.take(i as int).push(s@[i as int]));
            assert(buf@ =~= old(buf)@ + s@.take(i + 1));
        }
        i = i + 1;
    }
    proof {
        assert(s@.take(n as int) =~= s@);
        assert(buf@ =~= old(buf)@ + s@);
    }
}

/// Append the characters of `v`.
fn append_chars(buf: &mut Vec<char>, v: &Vec<char>)
    ensures
        final(buf)@ == old(buf)@ + v@,
{
    let n = v.len();
    let mut i: usize = 0;
    while i < n
        invariant
            i <= n,
            n == v@.len(),
            buf@ == old(buf)@ + v@.take(i as int),
        decreases n - i,
    {
        buf.push(v[i]);
        proof {
            assert(v@.take(i + 1) =~= v@.take(i as int).push(v@[i as int]));
            assert(buf@ =~= old(buf)@ + v@.take(i + 1));
        }
        i = i + 1;
    }
    proof {
        assert(v@.take(n as int) =~= v@);
        assert(buf@ =~= old(buf)@ + v@);
    }
}

/// Render one expectation.
fn render_expected(e: &Expected) -> (r: Vec<char>)
    ensures
        r@ == spec_render_expected(e@),
{
    let mut buf: Vec<char> = Vec::new();
    match e {
        Expected::Char(c) => {
            buf.push('\'');
            buf.push(*c);
            buf.push('\'');
            proof {
                assert(buf@ =~= seq!['\'', *c, '\'']);
            }
        },
        Expected::Str(s) => {
            buf.push('"');
            push_str_chars(&mut buf, s.as_str());
            buf.push('"');
            proof {
                assert(buf@ =~= seq!['"'] + s@ + seq!['"']);
            }
        },
        Expected::OneOf(s) => {
            push_str_chars(&mut buf, "one of \"");
            push_str_chars(&mut buf, s.as_str());
            buf.push('"');
            proof {
                assert(buf@ =~= "one of \""@ + s@ + seq!['"']);
            }
        },
        Expected::Range(a, b) => {
            buf.push('\'');
            buf.push(*a);
            buf.push('\'');
            push_str_chars(&mut buf, "..");
            buf.push('\'');
            buf.push(*b);
            buf.push('\'');
            proof {
                assert(buf@ =~= seq!['\'', *a, '\''] + ".."@ + seq!['\'', *b, '\'']);
            }
        },
        Expected::RangeInclusive(a, b) => {
            buf.push('\'');
            buf.push(*a);
            buf.push('\'');
            push_str_chars(&mut buf, "..=");
            buf.push('\'');
            buf.push(*b);
            buf.push('\'');
            proof {
                assert(buf@ =~= seq!['\'', *a, '\''] + "..="@ + seq!['\'', *b, '\'']);
            }
        },
        Expected::Rule(s) => {
            buf.push('<');
            push_str_chars(&mut buf, s.as_str());
            buf.push('>');
            proof {
                assert(buf@ =~= seq!['<'] + s@ + seq!['>']);
            }
        },
    }
    buf
}

/// Render one message on its own.
fn render_msg(m: &ErrorMessage) -> (r: Vec<char>)
    ensures
        r@ == spec_render_msg(m@),
{
    match m {
        ErrorMessage::Text(s) => {
            let mut buf: Vec<char> = Vec::new();
            push_str_chars(&mut buf, s.as_str());
            proof {
                assert(buf@ =~= s@);
            }
            buf
        },
        ErrorMessage::UnexpectedEOF => {
            let mut buf: Vec<char> = Vec::new();
            push_str_chars(&mut buf, "unexpected EOF");
            proof {
                assert(buf@ =~= "unexpected EOF"@);
            }
            buf
        },
        ErrorMessage::Expected(e) => render_expected(e),
    }
}

/// Join the parts with the separator.
fn join_parts(parts: &Vec<Vec<char>>, sep: &str) -> (r: Vec<char>)
    ensures
        r@ == spec_join(parts.deep_view(), sep@),
{
    let mut buf: Vec<char> = Vec::new();
    let n = parts.len();
    let mut i: usize = 0;
    while i < n
        invariant
            i <= n,
            n == parts@.len(),
            i == 0 ==> buf@ == Seq::<char>::empty(),
            i >= 1 ==> buf@ == spec_join(parts.deep_view().take(i as int), sep@),
        decreases n - i,
    {
        proof {
            assert(parts.deep_view()[i as int] =~= parts@[i as int]@);
        }
        if i > 0 {
            push_str_chars(&mut buf, sep);
        }
        append_chars(&mut buf, &parts[i]);
        proof {
            assert(parts.deep_view().take(i + 1) =~= parts.deep_view().take(i as int).push(
                parts@[i as int]@,
            ));
            if i >= 1 {
                lemma_join_snoc(parts.deep_view().take(i as int), sep@, parts@[i as int]@);
            } else {
                assert(parts.deep_view().take(1)[0] == parts@[0]@);
                assert(spec_join(parts.deep_view().take(1), sep@) == parts@[0]@);
                assert(buf@ =~= parts@[0]@);
            }
        }
        i = i + 1;
    }
    proof {
        assert(parts.deep_view().take(n as int) =~= parts.deep_view());
    }
    buf
}

impl Error {
    /// The human-readable message: non-expectation messages joined with
    /// " | ", with all expectations collapsed into one final "expected"
    /// clause (one alternative plainly, several in parentheses).
    pub fn message(&self) -> (r: String)
        ensures
            r@ == spec_message(self@.msgs),
    {
        let ghost msgs = self@.msgs;
        let mut expected: Vec<Vec<char>> = Vec::new();
        let mut plain: Vec<Vec<char>> = Vec::new();
        let mut i: usize = 0;
        proof {
            assert(expected.deep_view() =~= spec_expected_parts(msgs.take(0)));
            assert(plain.deep_view() =~= spec_plain_parts(msgs.take(0)));
        }
        while i < self.messages.len()
            invariant
                i <= self.messages@.len(),
                msgs == self.messages.deep_view(),
                msgs.len() == self.messages@.len(),
                expected.deep_view() == spec_expected_parts(msgs.take(i as int)),
                plain.deep_view() == spec_plain_parts(msgs.take(i as int)),
            decreases self.messages@.len() - i,
        {
            let ghost before_e = expected.deep_view();
            let ghost before_p = plain.deep_view();
            let m = &self.messages[i];
            proof {
                assert(m@ == msgs[i as int]);
            }
            match m {
                ErrorMessage::Expected(e) => {
                    let part = render_expected(e);
                    expected.push(part);
                    proof {
                        assert(expected.deep_view() =~~= before_e.push(spec_render_expected(e@)));
                    }
                },
                _ => {
                    let part = render_msg(m);
                    plain.push(part);
                    proof {
                        assert(plain.deep_view() =~~= before_p.push(spec_render_msg(m@)));
                    }
                },
            }
            proof {
                assert(msgs.take(i + 1) =~= msgs.take(i as int).push(msgs[i as int]));
                lemma_parts_snoc(msgs.take(i as int), msgs[i as int]);
                assert(expected.deep_view() =~= spec_expected_parts(msgs.take(i + 1)));
                assert(plain.deep_view() =~= spec_plain_parts(msgs.take(i + 1)));
            }
            i = i + 1;
        }
        proof {
            assert(msgs.take(msgs.len() as int) =~= msgs);
        }
        let mut parts = plain;
        let ghost pl = parts.deep_view();
        if expected.len() == 1 {
            let mut clause: Vec<char> = Vec::new();
            push_str_chars(&mut clause, "expected ");
            append_chars(&mut clause, &expected[0]);
            proof {
                assert(expected.deep_view()[0] =~= expected@[0]@);
            }
            parts.push(clause);
            proof {
                assert(parts.deep_view() =~~= pl.push("expected "@ + expected.deep_view()[0]));
            }
        } else if expected.len() > 1 {
            let mut clause: Vec<char> = Vec::new();
            push_str_chars(&mut clause, "expected (");
            let joined = join_parts(&expected, " | ");
            append_chars(&mut clause, &joined);
            clause.push(')');
            proof {
                assert(clause@ =~= "expected ("@ + spec_join(expected.deep_view(), " | "@)
                    + seq![')']);
            }
            parts.push(clause);
            proof {
                assert(parts.deep_view() =~~= pl.push(
                    "expected ("@ + spec_join(expected.deep_view(), " | "@) + seq![')'],
                ));
            }
        }
        let out = join_parts(&parts, " | ");
        crate::parser::chars_to_string(&out)
    }
}

/// The outcome of one parsing unit: success (a cursor past the consumed
/// input, and the value) or failure (an error).
pub type PResult<R> = Result<(Stream, R), Error>;

} // verus!

use vstd::prelude::*;
use vstd::string::StringExecFns;
use crate::context::Context;
use crate::error::{ErrorMessage, ExpectedV, MsgV, PResult};
use crate::parser::{
    class_run_end, lemma_many_of_class, lemma_many_spec, lemma_many_wf, lemma_mapped_spec,
    lemma_mapped_wf, lemma_rule_spec, lemma_rule_wf, spec_class_parse, Combine, Parser,
};
use crate::parsers::{one_of, range_incl, Any, EOF};
use crate::stream::{spec_next, Stream};

verus! {

/// Space, tab, newline or carriage return.
pub open spec fn is_ws_char(c: char) -> bool {
    c == ' ' || c == '\n' || c == '\r' || c == '\t'
}

/// The whitespace class, as a value.
pub open spec fn ws_class() -> spec_fn(char) -> bool {
    |c: char| is_ws_char(c)
}

/// Where the whitespace run starting at `pos` ends.
pub open spec fn spec_ws_end(text: Seq<char>, pos: int) -> int {
    class_run_end(ws_class(), text, pos)
}

/// Whitespace rule: consume zero or more space, tab, newline or carriage
/// return characters. Never fails, and leaves the tracker untouched.
pub fn ws(stream: Stream, ctx: &mut Context) -> (r: PResult<()>)
    requires
        stream.wf(),
        old(ctx).wf(),
        stream.len == old(ctx).text@.len(),
    ensures
        final(ctx).wf(),
        final(ctx).text == old(ctx).text,
        final(ctx).catcher == old(ctx).catcher,
        r is Ok,
        r matches Ok((s2, _)) ==> {
            &&& s2.wf()
            &&& s2.len == stream.len
            &&& stream.pos <= s2.pos
            &&& s2.pos as int == spec_ws_end(old(ctx).text@, stream.pos as int)
        },
{
    broadcast use crate::parser::group_combinator_defs;

    let ghost text = old(ctx).text@;
    let cls_set = one_of(" \n\r\t");
    let ghost cls_val = cls_set;
    let p = cls_set.many().map(|_v: Vec<char>| (), Ghost(|_s: Seq<char>| ())).rule("ws");
    proof {
        reveal_strlit(" \n\r\t");
        assert(cls_val.chars@ =~= seq![' ', '\n', '\r', '\t']);
        assert forall|pp: int| 0 <= pp <= text.len() implies #[trigger] cls_val.spec_parse(
            text,
            pp,
        ) == spec_class_parse(ws_class(), text, pp) by {
            let (npos, c) = spec_next(text, pp);
            assert((ws_class())(c) == is_ws_char(c));
            assert(cls_val.chars@.contains(c) <==> is_ws_char(c)) by {
                if is_ws_char(c) {
                    if c == ' ' {
                        assert(cls_val.chars@[0] == c);
                    } else if c == '\n' {
                        assert(cls_val.chars@[1] == c);
                    } else if c == '\r' {
                        assert(cls_val.chars@[2] == c);
                    } else {
                        assert(cls_val.chars@[3] == c);
                    }
                }
            }
        }
        assert(!(ws_class())('\0'));
        lemma_many_of_class(cls_val, ws_class(), text, stream.pos as int);
        lemma_rule_wf(p);
        lemma_mapped_wf(p.a);
        lemma_many_wf(p.a.a);
        lemma_rule_spec(p, text, stream.pos as int);
        lemma_mapped_spec(p.a, text, stream.pos as int);
        lemma_many_spec(p.a.a, text, stream.pos as int);
    }
    p.parse(stream, ctx)
}

/// A letter or underscore: what an identifier may start with.
pub open spec fn is_ident_start(c: char) -> bool {
    ||| 'a' as u32 <= c as u32 && c as u32 <= 'z' as u32
    ||| 'A' as u32 <= c as u32 && c as u32 <= 'Z' as u32
    ||| c == '_'
}

/// A letter, digit or underscore: what an identifier may continue with.
pub open spec fn is_ident_char(c: char) -> bool {
    is_ident_start(c) || ('0' as u32 <= c as u32 && c as u32 <= '9' as u32)
}

/// The identifier starting at `pos`: one letter or underscore, then the
/// maximal run of letters, digits and underscores.
pub open spec fn spec_ident(text: Seq<char>, pos: int) -> Option<(int, Seq<char>)> {
    if 0 <= pos < text.len() && is_ident_start(text[pos]) {
        let e = class_run_end(|c: char| is_ident_char(c), text, pos + 1);
        Some((e, text.subrange(pos, e)))
    } else {
        None
    }
}

/// Identifier rule: one letter or underscore, followed by zero or more
/// letters, digits or underscores. Leaves the tracker untouched; on failure
/// the single expectation is the rule's name.
pub fn ident(stream: Stream, ctx: &mut Context) -> (r: PResult<String>)
    requires
        stream.wf(),
        old(ctx).wf(),
        stream.len == old(ctx).text@.len(),
    ensures
        final(ctx).wf(),
        final(ctx).text == old(ctx).text,
        final(ctx).catcher == old(ctx).catcher,
        match r {
            Ok((s2, v)) => {
                &&& s2.wf()
                &&& s2.len == stream.len
                &&& stream.pos <= s2.pos
                &&& spec_ident(old(ctx).text@, stream.pos as int) == Some((s2.pos as int, v@))
            },
            Err(e) => {
                &&& spec_ident(old(ctx).text@, stream.pos as int) is None
                &&& e.wf()
                &&& e.stream.len == stream.len
                &&& stream.pos <= e.stream.pos
                &&& e@.msgs == seq![MsgV::Expected(ExpectedV::Rule("ident"@))]
            },
        },
{
    let ghost text = old(ctx).text@;
    let pos = stream.pos;
    let letter = range_incl('a', 'z').or(range_incl('A', 'Z')).or('_');
    let letter_or_digit = range_incl('a', 'z').or(range_incl('A', 'Z')).or('_').or(
        range_incl('0', '9'),
    );
    let ghost lod = letter_or_digit;
    let p = letter.prepend(letter_or_digit.many()).as_string().rule("ident");
    proof {
        let cls = |c: char| is_ident_char(c);
        assert forall|pp: int| 0 <= pp <= text.len() implies #[trigger] lod.spec_parse(text, pp)
            == spec_class_parse(cls, text, pp) by {
            let (npos, c) = spec_next(text, pp);
        }
        if 0 <= pos < text.len() && is_ident_start(text[pos as int]) {
            lemma_many_of_class(lod, cls, text, pos + 1);
            let e = class_run_end(cls, text, pos + 1);
            assert(seq![text[pos as int]] + text.subrange(pos + 1, e) =~= text.subrange(
                pos as int,
                e,
            ));
        }
    }
    p.parse(stream, ctx)
}

/// A hexadecimal digit.
pub open spec fn is_hex_digit(c: char) -> bool {
    ||| '0' as u32 <= c as u32 && c as u32 <= '9' as u32
    ||| 'a' as u32 <= c as u32 && c as u32 <= 'f' as u32
    ||| 'A' as u32 <= c as u32 && c as u32 <= 'F' as u32
}

/// The hexadecimal-digit class, as a value.
pub open spec fn hex_class() -> spec_fn(char) -> bool {
    |c: char| is_hex_digit(c)
}

/// The value of one hexadecimal digit.
pub open spec fn hex_val(c: char) -> int {
    if '0' as u32 <= c as u32 && c as u32 <= '9' as u32 {
        c as u32 - '0' as u32
    } else if 'a' as u32 <= c as u32 && c as u32 <= 'f' as u32 {
        c as u32 - 'a' as u32 + 10
    } else {
        c as u32 - 'A' as u32 + 10
    }
}

/// The number the hexadecimal digits `ds` denote, most significant first.
pub open spec fn hex_fold(ds: Seq<char>) -> int
    decreases ds.len(),
{
    if ds.len() == 0 {
        0
    } else {
        hex_fold(ds.drop_last()) * 16 + hex_val(ds.last())
    }
}

/// Sixteen to the `n`th.
pub open spec fn pow16(n: nat) -> int
    decreases n,
{
    if n == 0 {
        1
    } else {
        16 * pow16((n - 1) as nat)
    }
}

/// Hexadecimal digits denote a number below sixteen to their count.
proof fn lemma_hex_fold_bound(ds: Seq<char>)
    requires
        forall|k: int| 0 <= k < ds.len() ==> is_hex_digit(#[trigger] ds[k]),
    ensures
        0 <= hex_fold(ds) < pow16(ds.len()),
    decreases ds.len(),
{
    if ds.len() > 0 {
        lemma_hex_fold_bound(ds.drop_last());
    }
}

/// A code point some character has: below the surrogate range or between it
/// and the greatest code point.
pub open spec fn valid_scalar(code: int) -> bool {
    (0 <= code && code < 0xD800) || (0xE000 <= code && code <= 0x10FFFF)
}

/// The character with the given code point, named after `char::from_u32`.
pub uninterp spec fn char_of_code(code: u32) -> char;

/// Relies on `char::from_u32`: `Some` exactly for values that are not
/// surrogates and not above the greatest code point; the character returned
/// is determined by the value alone and carries that value as its code
/// point.
pub assume_specification [char::from_u32] (code: u32) -> (r: Option<char>)
    ensures
        r matches Some(c) ==> c == char_of_code(code) && c as u32 == code,
        (r is Some) == valid_scalar(code as int),
;

/// The value of one hexadecimal digit character.
fn hex_digit_val(c: char) -> (r: u32)
    requires
        is_hex_digit(c),
    ensures
        r as int == hex_val(c),
        r < 16,
{
    let u = c as u32;
    if u >= '0' as u32 && u <= '9' as u32 {
        u - '0' as u32
    } else if u >= 'a' as u32 && u <= 'f' as u32 {
        u - 'a' as u32 + 10
    } else {
        u - 'A' as u32 + 10
    }
}

/// The number the given hexadecimal digits denote.
fn fold_hex(ds: &Vec<char>) -> (r: u32)
    requires
        forall|k: int| 0 <= k < ds@.len() ==> is_hex_digit(#[trigger] ds@[k]),
        ds@.len() <= 6,
    ensures
        r as int == hex_fold(ds@),
{
    proof {
        assert(pow16(6) == 0x1000000) by {
            assert(pow16(0) == 1);
            assert(pow16(1) == 16);
            assert(pow16(2) == 256);
            assert(pow16(3) == 4096);
            assert(pow16(4) == 65536);
            assert(pow16(5) == 1048576);
        }
    }
    let mut acc: u32 = 0;
    let mut i: usize = 0;
    while i < ds.len()
        invariant
            i <= ds@.len() <= 6,
            forall|k: int| 0 <= k < ds@.len() ==> is_hex_digit(#[trigger] ds@[k]),
            acc as int == hex_fold(ds@.take(i as int)),
            acc < 0x1000000,
        decreases ds@.len() - i,
    {
        let d = hex_digit_val(ds[i]);
        proof {
            assert(ds@.take(i + 1).drop_last() =~= ds@.take(i as int));
            assert(ds@.take(i + 1).last() == ds@[i as int]);
            lemma_hex_fold_bound(ds@.take(i + 1));
            assert(pow16(0) == 1);
            assert(pow16(1) == 16);
            assert(pow16(2) == 256);
            assert(pow16(3) == 4096);
            assert(pow16(4) == 65536);
            assert(pow16(5) == 1048576);
            assert(pow16(6) == 0x1000000);
            assert(pow16(ds@.take(i + 1).len()) <= 0x1000000);
        }
        acc = acc * 16 + d;
        i = i + 1;
    }
    proof {
        assert(ds@.take(ds@.len() as int) =~= ds@);
    }
    acc
}

/// The hexadecimal run starting at `pos`: where it ends and its digits.
pub open spec fn spec_hex_run(text: Seq<char>, pos: int) -> (int, Seq<char>) {
    let e = class_run_end(hex_class(), text, pos);
    (e, text.subrange(pos, e))
}

/// A `\xHH` escape at `pos`: its end and the two digits. The digit run after
/// `\x` must be exactly two long.
pub open spec fn spec_escape_x(text: Seq<char>, pos: int) -> Option<(int, Seq<char>)> {
    match crate::parsers::spec_lit("\\x"@, text, pos) {
        None => None,
        Some(p1) => {
            let (e, ds) = spec_hex_run(text, p1);
            if 2 <= ds.len() <= 2 {
                Some((e, ds))
            } else {
                None
            }
        },
    }
}

/// A `\u{H..H}` escape at `pos`: its end and the one to six digits.
pub open spec fn spec_escape_u(text: Seq<char>, pos: int) -> Option<(int, Seq<char>)> {
    match crate::parsers::spec_lit("\\u{"@, text, pos) {
        None => None,
        Some(p1) => {
            let (e, ds) = spec_hex_run(text, p1);
            if 1 <= ds.len() <= 6 {
                if e < text.len() && text[e] == '}' {
                    Some((e + 1, ds))
                } else {
                    None
                }
            } else {
                None
            }
        },
    }
}

/// The digits of a numbered escape at `pos`, in either of its two forms.
pub open spec fn spec_escape_digits(text: Seq<char>, pos: int) -> Option<(int, Seq<char>)> {
    match spec_escape_x(text, pos) {
        Some(r) => Some(r),
        None => spec_escape_u(text, pos),
    }
}

/// A numbered escape at `pos`: the character whose code the digits give, if
/// that code is a valid code point.
pub open spec fn spec_escape_code(text: Seq<char>, pos: int) -> Option<(int, char)> {
    match spec_escape_digits(text, pos) {
        None => None,
        Some((e, ds)) => {
            let code = hex_fold(ds);
            if valid_scalar(code) {
                Some((e, char_of_code(code as u32)))
            } else {
                None
            }
        },
    }
}

/// Any escape sequence at `pos`: one of the named escapes, or a numbered
/// one.
pub open spec fn spec_escape(text: Seq<char>, pos: int) -> Option<(int, char)> {
    if crate::parsers::spec_lit("\\n"@, text, pos) is Some {
        Some((pos + 2, '\n'))
    } else if crate::parsers::spec_lit("\\0"@, text, pos) is Some {
        Some((pos + 2, '\0'))
    } else if crate::parsers::spec_lit("\\r"@, text, pos) is Some {
        Some((pos + 2, '\r'))
    } else if crate::parsers::spec_lit("\\t"@, text, pos) is Some {
        Some((pos + 2, '\t'))
    } else if crate::parsers::spec_lit("\\\\"@, text, pos) is Some {
        Some((pos + 2, '\\'))
    } else {
        spec_escape_code(text, pos)
    }
}

/// The numbered escapes `\xHH` and `\u{H..H}` (one to six digits): decode
/// the digits and fail, consuming nothing, when they name no valid code
/// point.
pub struct EscapeCode;

impl Parser for EscapeCode {
    type Result = char;

    open spec fn wf(&self) -> bool {
        true
    }

    open spec fn spec_parse(&self, text: Seq<char>, pos: int) -> Option<(int, char)> {
        spec_escape_code(text, pos)
    }

    fn parse(&self, stream: Stream, ctx: &mut Context) -> (r: PResult<char>)
        ensures
            r matches Err(e) ==> ((!old(ctx).catcher.is_started && spec_escape_digits(
                old(ctx).text@,
                stream.pos as int,
            ) is Some) ==> e@.stream == stream && e@.msgs == seq![
                MsgV::Text("invalid unicode code"@),
            ]),
    {
        let ghost text = old(ctx).text@;
        let ghost pos = stream.pos as int;
        let x_digits = range_incl('0', '9').or(range_incl('a', 'f')).or(range_incl('A', 'F'));
        let u_digits = range_incl('0', '9').or(range_incl('a', 'f')).or(range_incl('A', 'F'));
        let ghost dg = x_digits;
        let lit_x: &'static str = "\\x";
        let lit_u: &'static str = "\\u{";
        let p = lit_x.ignore_prev(x_digits.in_range(2, 2)).or(
            lit_u.ignore_prev(u_digits.in_range(1, 6)).ignore_this('}'),
        );
        proof {
            reveal_strlit("\\x");
            reveal_strlit("\\u{");
            assert(u_digits == dg);
            assert forall|pp: int| 0 <= pp <= text.len() implies #[trigger] dg.spec_parse(text, pp)
                == spec_class_parse(hex_class(), text, pp) by {
                let (npos, c) = spec_next(text, pp);
                assert((hex_class())(c) == is_hex_digit(c));
            }
            assert(!(hex_class())('\0'));
            if pos + 2 <= text.len() && text.subrange(pos, pos + 2) == "\\x"@ {
                lemma_many_of_class(dg, hex_class(), text, pos + 2);
            }
            if pos + 3 <= text.len() && text.subrange(pos, pos + 3) == "\\u{"@ {
                lemma_many_of_class(dg, hex_class(), text, pos + 3);
            }
        }
        match p.parse(stream, ctx) {
            Err(e) => Err(e),
            Ok((s, ds)) => {
                proof {
                    assert(ds.deep_view() =~= ds@);
                }
                let code = fold_hex(&ds);
                match char::from_u32(code) {
                    Some(c) => s.ok(c),
                    None => stream.err(
                        ErrorMessage::Text(String::from_str("invalid unicode code")),
                        ctx,
                    ),
                }
            },
        }
    }
}

/// Escape rule: one of the named escapes `\n \0 \r \t \\`, or a numbered
/// `\xHH` / `\u{H..H}` escape. Collapses its internal expectations into the
/// single expectation "rule escape" and leaves the tracker untouched.
fn escape(stream: Stream, ctx: &mut Context) -> (r: PResult<char>)
    requires
        stream.wf(),
        old(ctx).wf(),
        stream.len == old(ctx).text@.len(),
    ensures
        final(ctx).wf(),
        final(ctx).text == old(ctx).text,
        final(ctx).catcher == old(ctx).catcher,
        match r {
            Ok((s2, v)) => {
                &&& s2.wf()
                &&& s2.len == stream.len
                &&& stream.pos <= s2.pos
                &&& spec_escape(old(ctx).text@, stream.pos as int) == Some((s2.pos as int, v))
            },
            Err(e) => {
                &&& spec_escape(old(ctx).text@, stream.pos as int) is None
                &&& e.wf()
                &&& e.stream.len == stream.len
                &&& stream.pos <= e.stream.pos
                &&& e@.msgs == seq![MsgV::Expected(ExpectedV::Rule("escape"@))]
            },
        },
{
    let ghost text = old(ctx).text@;
    let ghost pos = stream.pos as int;
    let ln: &'static str = "\\n";
    let l0: &'static str = "\\0";
    let lr: &'static str = "\\r";
    let lt: &'static str = "\\t";
    let lb: &'static str = "\\\\";
    let p = ln.to_char('\n').or(l0.to_char('\0')).or(lr.to_char('\r')).or(lt.to_char('\t')).or(
        lb.to_char('\\'),
    ).or(EscapeCode).rule("escape");
    proof {
        reveal_strlit("\\n");
        reveal_strlit("\\0");
        reveal_strlit("\\r");
        reveal_strlit("\\t");
        reveal_strlit("\\\\");
    }
    p.parse(stream, ctx)
}

/// Any escape sequence, as a parsing unit (see [`spec_escape`]).
pub struct Escape;

impl Parser for Escape {
    type Result = char;

    open spec fn wf(&self) -> bool {
        true
    }

    open spec fn spec_parse(&self, text: Seq<char>, pos: int) -> Option<(int, char)> {
        spec_escape(text, pos)
    }

    fn parse(&self, stream: Stream, ctx: &mut Context) -> (r: PResult<char>)
        ensures
            final(ctx).catcher == old(ctx).catcher,
            r matches Err(e) ==> e@.msgs == seq![MsgV::Expected(ExpectedV::Rule("escape"@))],
    {
        escape(stream, ctx)
    }
}

/// One string-content character at `pos`: an escape, an escaped quote, or
/// any character except end of input, the closing quote, and a backslash. A
/// backslash that begins none of the listed escapes' valid forms (an unknown
/// escape, a wrong digit count, an invalid code point) is rejected, never
/// consumed literally.
pub open spec fn spec_string_char(text: Seq<char>, pos: int) -> Option<(int, char)> {
    match spec_escape(text, pos) {
        Some(r) => Some(r),
        None => match crate::parsers::spec_lit("\\\""@, text, pos) {
            Some(e) => Some((e, '"')),
            None => match crate::parsers::spec_lit("\\'"@, text, pos) {
                Some(e) => Some((e, '\'')),
                None => {
                    let (npos, c) = spec_next(text, pos);
                    if c != '\0' && c != '"' && c != '\\' {
                        Some((npos, c))
                    } else {
                        None
                    }
                },
            },
        },
    }
}

/// The decoded content of a quoted string from `pos` on: where it ends and
/// the characters it denotes.
pub open spec fn spec_string_body(text: Seq<char>, pos: int) -> (int, Seq<char>)
    decreases text.len() - pos,
{
    match spec_string_char(text, pos) {
        None => (pos, Seq::empty()),
        Some((e, c)) => if pos < e <= text.len() {
            let (e2, cs) = spec_string_body(text, e);
            (e2, seq![c] + cs)
        } else {
            (pos, Seq::empty())
        },
    }
}

/// A quoted string at `pos`: its end and its decoded content.
pub open spec fn spec_string(text: Seq<char>, pos: int) -> Option<(int, Seq<char>)> {
    if 0 <= pos < text.len() && text[pos] == '"' {
        let (e, cs) = spec_string_body(text, pos + 1);
        if e < text.len() && text[e] == '"' {
            Some((e + 1, cs))
        } else {
            None
        }
    } else {
        None
    }
}

/// Repeating a string-content unit matches [`spec_string_body`].
proof fn lemma_many_string_body<A: Parser<Result = char>>(a: A, text: Seq<char>, pos: int)
    requires
        0 <= pos <= text.len(),
        forall|p: int|
            0 <= p <= text.len() ==> #[trigger] a.spec_parse(text, p) == spec_string_char(text, p),
    ensures
        ({
            let (e, cs) = spec_string_body(text, pos);
            &&& pos <= e <= text.len()
            &&& crate::parser::spec_many(a, text, pos) == (e, cs)
        }),
    decreases text.len() - pos,
{
    assert(a.spec_parse(text, pos) == spec_string_char(text, pos));
    match spec_string_char(text, pos) {
        None => {},
        Some((e, c)) => {
            if pos < e <= text.len() {
                lemma_many_string_body(a, text, e);
            }
        },
    }
}

/// Quoted-string rule: a double quote, any number of content characters
/// (escapes decoded), and a closing double quote. A backslash that begins
/// no valid escape — wrong digit count, invalid code point, unknown escape
/// — fails the rule. Leaves the tracker untouched; on failure the single
/// expectation is the rule's name.
pub fn string(stream: Stream, ctx: &mut Context) -> (r: PResult<String>)
    requires
        stream.wf(),
        old(ctx).wf(),
        stream.len == old(ctx).text@.len(),
    ensures
        final(ctx).wf(),
        final(ctx).text == old(ctx).text,
        final(ctx).catcher == old(ctx).catcher,
        match r {
            Ok((s2, v)) => {
                &&& s2.wf()
                &&& s2.len == stream.len
                &&& stream.pos <= s2.pos
                &&& spec_string(old(ctx).text@, stream.pos as int) == Some((s2.pos as int, v@))
            },
            Err(e) => {
                &&& spec_string(old(ctx).text@, stream.pos as int) is None
                &&& e.wf()
                &&& e.stream.len == stream.len
                &&& stream.pos <= e.stream.pos
                &&& e@.msgs == seq![MsgV::Expected(ExpectedV::Rule("string"@))]
            },
        },
{
    let ghost text = old(ctx).text@;
    let ghost pos = stream.pos as int;
    let lq: &'static str = "\\\"";
    let lsq: &'static str = "\\'";
    let ch = Escape.or(lq.to_char('"')).or(lsq.to_char('\'')).or(
        Any.and_not(EOF, "end of input").and_not('"', "'\"'").and_not('\\', "'\\\\'"),
    );
    let ghost chv = ch;
    let quote: char = '"';
    let p = quote.ignore_prev(ch.many().ignore_this('"')).as_string().rule("string");
    proof {
        reveal_strlit("\\\"");
        reveal_strlit("\\'");
        assert forall|pp: int| 0 <= pp <= text.len() implies #[trigger] chv.spec_parse(text, pp)
            == spec_string_char(text, pp) by {
            let (npos, c) = spec_next(text, pp);
        }
        if 0 <= pos < text.len() && text[pos] == '"' {
            lemma_many_string_body(chv, text, pos + 1);
        }
    }
    p.parse(stream, ctx)
}

/// One quoted-character content item at `pos`: an escape, an escaped quote,
/// or any character except end of input, the closing quote, and a
/// backslash. A backslash that begins none of the listed escapes' valid
/// forms is rejected, never consumed literally.
pub open spec fn spec_char_item(text: Seq<char>, pos: int) -> Option<(int, char)> {
    match spec_escape(text, pos) {
        Some(r) => Some(r),
        None => match crate::parsers::spec_lit("\\'"@, text, pos) {
            Some(e) => Some((e, '\'')),
            None => match crate::parsers::spec_lit("\\\""@, text, pos) {
                Some(e) => Some((e, '"')),
                None => {
                    let (npos, c) = spec_next(text, pos);
                    if c != '\0' && c != '\'' && c != '\\' {
                        Some((npos, c))
                    } else {
                        None
                    }
                },
            },
        },
    }
}

/// A quoted character at `pos`: its end and the character it denotes.
pub open spec fn spec_character(text: Seq<char>, pos: int) -> Option<(int, char)> {
    if 0 <= pos < text.len() && text[pos] == '\'' {
        match spec_char_item(text, pos + 1) {
            None => None,
            Some((e, c)) => if e < text.len() && text[e] == '\'' {
                Some((e + 1, c))
            } else {
                None
            },
        }
    } else {
        None
    }
}

/// Quoted-character rule: a single quote, one content character (escapes
/// decoded), and a closing single quote. A backslash that begins no valid
/// escape fails the rule. Leaves the tracker untouched; on failure the
/// single expectation is the rule's name.
pub fn character(stream: Stream, ctx: &mut Context) -> (r: PResult<char>)
    requires
        stream.wf(),
        old(ctx).wf(),
        stream.len == old(ctx).text@.len(),
    ensures
        final(ctx).wf(),
        final(ctx).text == old(ctx).text,
        final(ctx).catcher == old(ctx).catcher,
        match r {
            Ok((s2, v)) => {
                &&& s2.wf()
                &&& s2.len == stream.len
                &&& stream.pos <= s2.pos
                &&& spec_character(old(ctx).text@, stream.pos as int) == Some((s2.pos as int, v))
            },
            Err(e) => {
                &&& spec_character(old(ctx).text@, stream.pos as int) is None
                &&& e.wf()
                &&& e.stream.len == stream.len
                &&& stream.pos <= e.stream.pos
                &&& e@.msgs == seq![MsgV::Expected(ExpectedV::Rule("character"@))]
            },
        },
{
    let ghost text = old(ctx).text@;
    let lq: &'static str = "\\'";
    let ldq: &'static str = "\\\"";
    let ch = Escape.or(lq.to_char('\'')).or(ldq.to_char('"')).or(
        Any.and_not(EOF, "end of input").and_not('\'', "'''").and_not('\\', "'\\\\'"),
    );
    let quote: char = '\'';
    let p = quote.ignore_prev(ch.ignore_this('\'')).rule("character");
    proof {
        reveal_strlit("\\'");
        reveal_strlit("\\\"");
    }
    p.parse(stream, ctx)
}

/// The whitespace rule, as a parsing unit (see [`ws`]).
pub struct Ws;

impl Parser for Ws {
    type Result = ();

    open spec fn wf(&self) -> bool {
        true
    }

    open spec fn spec_parse(&self, text: Seq<char>, pos: int) -> Option<(int, ())> {
        Some((spec_ws_end(text, pos), ()))
    }

    fn parse(&self, stream: Stream, ctx: &mut Context) -> (r: PResult<()>)
        ensures
            final(ctx).catcher == old(ctx).catcher,
    {
        ws(stream, ctx)
    }
}

/// The identifier rule, as a parsing unit (see [`ident`]).
pub struct Ident;

impl Parser for Ident {
    type Result = String;

    open spec fn wf(&self) -> bool {
        true
    }

    open spec fn spec_parse(&self, text: Seq<char>, pos: int) -> Option<(int, Seq<char>)> {
        spec_ident(text, pos)
    }

    fn parse(&self, stream: Stream, ctx: &mut Context) -> (r: PResult<String>)
        ensures
            final(ctx).catcher == old(ctx).catcher,
            r matches Err(e) ==> e@.msgs == seq![MsgV::Expected(ExpectedV::Rule("ident"@))],
    {
        ident(stream, ctx)
    }
}

/// The quoted-string rule, as a parsing unit (see [`string`]).
pub struct QuotedString;

impl Parser for QuotedString {
    type Result = String;

    open spec fn wf(&self) -> bool {
        true
    }

    open spec fn spec_parse(&self, text: Seq<char>, pos: int) -> Option<(int, Seq<char>)> {
        spec_string(text, pos)
    }

    fn parse(&self, stream: Stream, ctx: &mut Context) -> (r: PResult<String>)
        ensures
            final(ctx).catcher == old(ctx).catcher,
            r matches Err(e) ==> e@.msgs == seq![MsgV::Expected(ExpectedV::Rule("string"@))],
    {
        string(stream, ctx)
    }
}

/// The quoted-character rule, as a parsing unit (see [`character`]).
pub struct QuotedChar;

impl Parser for QuotedChar {
    type Result = char;

    open spec fn wf(&self) -> bool {
        true
    }

    open spec fn spec_parse(&self, text: Seq<char>, pos: int) -> Option<(int, char)> {
        spec_character(text, pos)
    }

    fn parse(&self, stream: Stream, ctx: &mut Context) -> (r: PResult<char>)
        ensures
            final(ctx).catcher == old(ctx).catcher,
            r matches Err(e) ==> e@.msgs == seq![MsgV::Expected(ExpectedV::Rule("character"@))],
    {
        character(stream, ctx)
    }
}

} // verus!

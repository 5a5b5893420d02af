use parsekit::{
    character, ident, one_of, range_incl, string, ws, Any, Combine, Context, Error, ErrorMessage,
    EscapeCode, Expected, Ident, Parser, QuotedChar, QuotedString, Stream, Ws, EOF,
};

#[test]
fn parse_idents() {
    let text = "abc d12 _e";
    let mut ctx = Context::new(text);
    let idents = Ws.ignore_prev(Ident).many().ignore_this(EOF);
    let result = idents.parse(Stream::new(text), &mut ctx);
    assert_eq!(
        result.map(|(_, r)| r),
        Ok(vec!["abc".to_string(), "d12".to_string(), "_e".to_string(),])
    );
}

#[test]
fn parse_string() {
    let text = r#"
            "Hello, world\n"
        "#;
    let mut ctx = Context::new(text);
    let result = Ws
        .ignore_prev(QuotedString)
        .parse(Stream::new(text), &mut ctx)
        .map(|(_, r)| r);
    assert_eq!(result, Ok("Hello, world\n".to_string()));
}

#[test]
fn hex_escape_decodes() {
    let text = "\"\\x41\"";
    let mut ctx = Context::new(text);
    let result = string(Stream::new(text), &mut ctx).map(|(_, r)| r);
    assert_eq!(result, Ok("A".to_string()));
}

#[test]
fn unicode_escape_decodes() {
    let text = "'\\u{1}'";
    let mut ctx = Context::new(text);
    let result = character(Stream::new(text), &mut ctx).map(|(_, r)| r);
    assert_eq!(result, Ok('\u{1}'));
}

#[test]
fn unicode_escape_out_of_range_fails() {
    let text = "\\u{110000}";
    let mut ctx = Context::new(text);
    // Suppress registration, as the escape rule does around this unit, so
    // the unit's own message comes back unmerged.
    ctx.catcher.set_started(false);
    let result = EscapeCode.parse(Stream::new(text), &mut ctx);
    match result {
        Ok(_) => panic!("code point past the maximum must be rejected"),
        Err(e) => assert_eq!(
            e.messages,
            vec![ErrorMessage::Text("invalid unicode code".to_string())]
        ),
    }
}

#[test]
fn ident_rejects_leading_digit() {
    let text = "123abc";
    let mut ctx = Context::new(text);
    let result = ident(Stream::new(text), &mut ctx);
    match result {
        Ok(_) => panic!("an identifier must not start with a digit"),
        Err(e) => assert_eq!(
            e.messages,
            vec![ErrorMessage::Expected(Expected::Rule("ident".to_string()))]
        ),
    }
}

#[test]
fn ws_consumes_maximal_run() {
    let text = " \t\r\n x";
    let mut ctx = Context::new(text);
    let (rest, ()) = ws(Stream::new(text), &mut ctx).unwrap();
    assert_eq!(rest.rest_len(), 1);
}

#[test]
fn choice_is_left_biased() {
    let text = "ab";
    let mut ctx = Context::new(text);
    let p = "ab".or("a");
    let (rest, got) = p.parse(Stream::new(text), &mut ctx).unwrap();
    assert_eq!(got, "ab");
    assert_eq!(rest.rest_len(), 0);
    // The first unit wins even when the second would also match.
    let mut ctx2 = Context::new(text);
    let q = "a".or("ab");
    let (rest2, got2) = q.parse(Stream::new(text), &mut ctx2).unwrap();
    assert_eq!(got2, "a");
    assert_eq!(rest2.rest_len(), 1);
}

#[test]
fn many_never_fails_and_collects() {
    let text = "aaab";
    let mut ctx = Context::new(text);
    let (rest, got) = 'a'.many().parse(Stream::new(text), &mut ctx).unwrap();
    assert_eq!(got, vec!['a', 'a', 'a']);
    assert_eq!(rest.rest_len(), 1);
    // On input without a match the collected sequence is empty.
    let mut ctx2 = Context::new(text);
    let (rest2, got2) = 'b'.many().parse(Stream::new(text), &mut ctx2).unwrap();
    assert_eq!(got2, Vec::<char>::new());
    assert_eq!(rest2.rest_len(), 4);
}

#[test]
fn optional_never_fails() {
    let text = "b";
    let mut ctx = Context::new(text);
    let (rest, got) = 'a'.opt().parse(Stream::new(text), &mut ctx).unwrap();
    assert_eq!(got, None);
    assert_eq!(rest.rest_len(), 1);
}

#[test]
fn one_or_more_fails_only_on_first() {
    let text = "b";
    let mut ctx = Context::new(text);
    assert!('a'.some().parse(Stream::new(text), &mut ctx).is_err());
    let text2 = "ab";
    let mut ctx2 = Context::new(text2);
    let (_, got) = 'a'.some().parse(Stream::new(text2), &mut ctx2).unwrap();
    assert_eq!(got, vec!['a']);
}

#[test]
fn literal_match_is_all_or_nothing() {
    let text = "foobar";
    let mut ctx = Context::new(text);
    let (rest, _) = Parser::parse(&"foo", Stream::new(text), &mut ctx).unwrap();
    assert_eq!(rest.rest_len(), 3);
    // A partial match consumes nothing: the same cursor still matches the
    // whole word afterwards.
    let mut ctx2 = Context::new(text);
    let start = Stream::new(text);
    assert!(Parser::parse(&"food", start, &mut ctx2).is_err());
    let (rest2, _) = Parser::parse(&"foobar", start, &mut ctx2).unwrap();
    assert_eq!(rest2.rest_len(), 0);
}

#[test]
fn merge_keeps_the_deeper_error() {
    let text = "xy";
    let shallow = Error::new(Stream::new(text), ErrorMessage::Expected(Expected::Char('a')));
    let deep_stream = {
        let s = Stream::new(text);
        let ctx = Context::new(text);
        s.next(&ctx).0
    };
    let deep = Error::new(deep_stream, ErrorMessage::Expected(Expected::Char('b')));
    let merged = shallow.clone().or(deep.clone());
    assert_eq!(merged.stream, deep_stream);
    assert_eq!(
        merged.messages,
        vec![ErrorMessage::Expected(Expected::Char('b'))]
    );
    let merged_flipped = deep.or(shallow);
    assert_eq!(merged_flipped.stream, deep_stream);
}

#[test]
fn merge_at_equal_depth_unions_messages() {
    let text = "xy";
    let a = Error::new(Stream::new(text), ErrorMessage::Expected(Expected::Char('a')));
    let b = Error::new(Stream::new(text), ErrorMessage::Expected(Expected::Char('b')));
    let merged = a.clone().or(b);
    assert_eq!(merged.messages.len(), 2);
    // Merging an error with itself changes nothing.
    let again = merged.clone().or(a);
    assert_eq!(again.messages.len(), 2);
}

#[test]
fn catcher_tracks_furthest_failure() {
    let text = "ab!";
    let mut ctx = Context::new(text);
    let p = "ab".ignore_prev('x').or("a".to_char('a'));
    let result = p.parse(Stream::new(text), &mut ctx);
    // The choice succeeds with its second branch, but the deepest failure
    // (the first branch, two characters in) is what the tracker holds.
    assert!(result.is_ok());
    assert_eq!(ctx.catcher.stream.rest_len(), 1);
    assert_eq!(
        ctx.catcher.messages,
        vec![ErrorMessage::Expected(Expected::Char('x'))]
    );
}

#[test]
fn unexpected_eof_from_wildcard() {
    let text = "";
    let mut ctx = Context::new(text);
    let result = Any.parse(Stream::new(text), &mut ctx);
    match result {
        Ok(_) => panic!("the wildcard must reject end of input"),
        Err(e) => assert_eq!(e.messages, vec![ErrorMessage::UnexpectedEOF]),
    }
}

#[test]
fn one_of_and_ranges_match_members() {
    let text = "c7";
    let mut ctx = Context::new(text);
    let (rest, got) = one_of("abc").parse(Stream::new(text), &mut ctx).unwrap();
    assert_eq!(got, 'c');
    let (_, digit) = range_incl('0', '9').parse(rest, &mut ctx).unwrap();
    assert_eq!(digit, '7');
    // A non-member is rejected with the set as the expectation.
    let mut ctx2 = Context::new(text);
    let err = one_of("xyz").parse(Stream::new(text), &mut ctx2).unwrap_err();
    assert_eq!(
        err.messages,
        vec![ErrorMessage::Expected(Expected::OneOf("xyz".to_string()))]
    );
}

#[test]
fn nested_rules_restore_suppression() {
    // A named rule inside another: the outer suppression state is restored
    // exactly, and the inner rule's noise never reaches the tracker.
    let text = "z";
    let mut ctx = Context::new(text);
    let inner = 'a'.rule("inner");
    let outer = inner.rule("outer");
    let before_len = ctx.catcher.stream.rest_len();
    let err = outer.parse(Stream::new(text), &mut ctx).unwrap_err();
    assert_eq!(
        err.messages,
        vec![ErrorMessage::Expected(Expected::Rule("outer".to_string()))]
    );
    assert_eq!(ctx.catcher.stream.rest_len(), before_len);
    assert!(ctx.catcher.messages.is_empty());
}

#[test]
fn list_with_and_without_trailing_separator() {
    let text = "a,a,a";
    let mut ctx = Context::new(text);
    let (rest, got) = 'a'.list(',').parse(Stream::new(text), &mut ctx).unwrap();
    assert_eq!(got, vec!['a', 'a', 'a']);
    assert_eq!(rest.rest_len(), 0);
    let text2 = "a,a,";
    let mut ctx2 = Context::new(text2);
    let (rest2, got2) = 'a'
        .list_trailing(',')
        .parse(Stream::new(text2), &mut ctx2)
        .unwrap();
    assert_eq!(got2, vec!['a', 'a']);
    assert_eq!(rest2.rest_len(), 0);
}

#[test]
fn repeat_in_range_checks_count() {
    let text = "aa";
    let mut ctx = Context::new(text);
    assert!('a'.in_range(3, 4).parse(Stream::new(text), &mut ctx).is_err());
    let mut ctx2 = Context::new(text);
    let (_, got) = 'a'.in_range(1, 2).parse(Stream::new(text), &mut ctx2).unwrap();
    assert_eq!(got.len(), 2);
}

#[test]
fn message_renders_single_expectation() {
    let text = "abc";
    let e = Error::new(
        Stream::new(text),
        ErrorMessage::Expected(Expected::Str("hi".to_string())),
    );
    assert_eq!(e.message(), "expected \"hi\"".to_string());
}

#[test]
fn message_collapses_expectations_into_one_clause() {
    let text = "abc";
    let s = Stream::new(text);
    let e = Error::new(s, ErrorMessage::Text("boom".to_string()))
        .or(Error::new(s, ErrorMessage::Expected(Expected::Char('a'))))
        .or(Error::new(s, ErrorMessage::Expected(Expected::Rule("x".to_string()))));
    assert_eq!(e.message(), "boom | expected ('a' | <x>)".to_string());
}

#[test]
fn message_renders_eof_and_ranges() {
    let text = "abc";
    let s = Stream::new(text);
    let e = Error::new(s, ErrorMessage::UnexpectedEOF).or(Error::new(
        s,
        ErrorMessage::Expected(Expected::RangeInclusive('0', '9')),
    ));
    assert_eq!(e.message(), "unexpected EOF | expected '0'..='9'".to_string());
}

#[test]
fn sequence_pairs_results_and_short_circuits() {
    let text = "ab";
    let mut ctx = Context::new(text);
    let (rest, got) = 'a'.seq('b').parse(Stream::new(text), &mut ctx).unwrap();
    assert_eq!(got, ('a', 'b'));
    assert_eq!(rest.rest_len(), 0);
    let mut ctx2 = Context::new(text);
    assert!('x'.seq('b').parse(Stream::new(text), &mut ctx2).is_err());
}

#[test]
fn opt_default_yields_fallback() {
    let text = "b";
    let mut ctx = Context::new(text);
    let (rest, got) = 'a'.opt_default('?').parse(Stream::new(text), &mut ctx).unwrap();
    assert_eq!(got, '?');
    assert_eq!(rest.rest_len(), 1);
}

#[test]
fn prepend_and_as_string_collect_characters() {
    let text = "xyz";
    let mut ctx = Context::new(text);
    let p = 'x'.prepend(range_incl('a', 'z').many()).as_string();
    let (rest, got) = p.parse(Stream::new(text), &mut ctx).unwrap();
    assert_eq!(got, "xyz".to_string());
    assert_eq!(rest.rest_len(), 0);
}

#[test]
fn exclusive_range_rejects_its_end() {
    let text = "z";
    let mut ctx = Context::new(text);
    let err = parsekit::range('a', 'z').parse(Stream::new(text), &mut ctx).unwrap_err();
    assert_eq!(
        err.messages,
        vec![ErrorMessage::Expected(Expected::Range('a', 'z'))]
    );
    let text2 = "y";
    let mut ctx2 = Context::new(text2);
    let (_, got) = parsekit::range('a', 'z').parse(Stream::new(text2), &mut ctx2).unwrap();
    assert_eq!(got, 'y');
}

#[test]
fn named_escapes_decode() {
    let text = "\"a\\tb\\\\c\\\"d\\0\"";
    let mut ctx = Context::new(text);
    let result = string(Stream::new(text), &mut ctx).map(|(_, r)| r);
    assert_eq!(result, Ok("a\tb\\c\"d\0".to_string()));
}

#[test]
fn string_rejects_wrong_hex_digit_count() {
    let text = "\"\\x1\"";
    let mut ctx = Context::new(text);
    let result = string(Stream::new(text), &mut ctx);
    match result {
        Ok(_) => panic!("a hex escape must have exactly two digits"),
        Err(e) => assert_eq!(
            e.messages,
            vec![ErrorMessage::Expected(Expected::Rule("string".to_string()))]
        ),
    }
}

#[test]
fn string_rejects_invalid_code_point() {
    let text = "\"\\u{110000}\"";
    let mut ctx = Context::new(text);
    assert!(string(Stream::new(text), &mut ctx).is_err());
}

#[test]
fn string_rejects_unknown_escape() {
    let text = "\"\\q\"";
    let mut ctx = Context::new(text);
    assert!(string(Stream::new(text), &mut ctx).is_err());
}

#[test]
fn quote_escapes_decode_in_both_rules() {
    let text = "\"\\'\"";
    let mut ctx = Context::new(text);
    let result = string(Stream::new(text), &mut ctx).map(|(_, r)| r);
    assert_eq!(result, Ok("'".to_string()));
    let text2 = "'\\\"'";
    let mut ctx2 = Context::new(text2);
    let result2 = character(Stream::new(text2), &mut ctx2).map(|(_, r)| r);
    assert_eq!(result2, Ok('"'));
}

#[test]
fn choice_failure_is_what_the_catcher_holds() {
    let text = "zz";
    let mut ctx = Context::new(text);
    let err = 'a'.or('b').parse(Stream::new(text), &mut ctx).unwrap_err();
    // With registration active, the returned merged error is exactly what
    // the tracker now records.
    assert_eq!(err.stream, ctx.catcher.stream);
    assert_eq!(err.messages, ctx.catcher.messages);
    assert_eq!(err.messages.len(), 2);
}

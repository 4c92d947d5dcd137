use gap_rules::components::{Color, GapRule, LineStyle, LineWidth};
use gap_rules::gap_auto_rule_list::{GapAutoRuleList, GapAutoRuleListItem};
use gap_rules::gap_rule_list::{AutoOr, GapRepeatRule, GapRuleList, GapRuleOrRepeat};
use gap_rules::syntax::{parse_source, peek_source, ErrorKind, Parse, ParseError, SemanticEq, ToCursors, ToSpan};
use gap_rules::token::{check_lexer_limits, tokenize, Cursor, Span, TokenKind};

fn shape(c: &Cursor) -> (TokenKind, u32, u32, u32) {
    (c.kind, c.offset, c.len, c.num_len)
}

fn cursors_of<T: ToCursors>(v: &T) -> Vec<Cursor> {
    let mut out = Vec::new();
    v.to_cursors(&mut out);
    out
}

#[test]
fn tokenize_reports_the_lexers_tokens_without_trivia() {
    let ts = tokenize("1px  solid /* c */ red, repeat(2, #fff)");
    let shapes: Vec<(TokenKind, u32, u32, u32)> = ts.iter().map(shape).collect();
    assert_eq!(
        shapes,
        vec![
            (TokenKind::Dimension, 0, 3, 1),
            (TokenKind::Ident, 5, 5, 0),
            (TokenKind::Ident, 19, 3, 0),
            (TokenKind::Comma, 22, 1, 0),
            (TokenKind::Function, 24, 7, 0),
            (TokenKind::Number, 31, 1, 1),
            (TokenKind::Comma, 32, 1, 0),
            (TokenKind::Hash, 34, 4, 0),
            (TokenKind::RightParen, 38, 1, 0),
        ]
    );
    // The lexer's encoding tells numbers of different value apart.
    let two = tokenize("2");
    let three = tokenize("3");
    assert_eq!(shape(&two[0]), shape(&three[0]));
    assert_ne!(two[0], three[0]);
    assert_eq!(tokenize(""), vec![]);
    assert_eq!(tokenize("   "), vec![]);
}

#[test]
fn gap_rule_parts_come_in_any_order_and_write_back_in_grammar_order() {
    let src = "solid 1px red";
    let ts = tokenize(src);
    let (rule, end) = match GapRule::parse(src.as_bytes(), &ts, 0) {
        Ok(r) => r,
        Err(e) => panic!("{:?}", e),
    };
    assert_eq!(end, 3);
    assert_eq!(rule.0, Some(LineWidth(ts[1])));
    assert_eq!(rule.1, Some(LineStyle(ts[0])));
    assert_eq!(rule.2.as_ref().map(|c| c.tokens.clone()), Some(vec![ts[2]]));
    assert_eq!(cursors_of(&rule), vec![ts[1], ts[0], ts[2]]);
    assert_eq!(rule.to_span(), Span { start: 0, end: 13 });
}

#[test]
fn a_gap_rule_may_have_one_or_two_parts() {
    for src in ["1px", "dashed", "red", "thin blue", "#00ff00 double", "0 solid"] {
        let ts = tokenize(src);
        match GapRule::parse(src.as_bytes(), &ts, 0) {
            Ok((_, end)) => assert_eq!(end, ts.len(), "{:?}", src),
            Err(e) => panic!("{:?}: {:?}", src, e),
        }
    }
}

#[test]
fn a_gap_rule_stops_at_a_repeated_part() {
    let src = "1px solid red solid";
    let ts = tokenize(src);
    match GapRule::parse(src.as_bytes(), &ts, 0) {
        Ok((_, end)) => assert_eq!(end, 3),
        Err(e) => panic!("{:?}", e),
    }
    assert_eq!(
        parse_source::<GapRuleList>(src).err(),
        Some(ParseError { kind: ErrorKind::ExpectedEnd, at: 3 })
    );
}

#[test]
fn keywords_ignore_ascii_case() {
    assert!(parse_source::<GapRuleList>("1PX Solid RED").is_ok());
    assert!(parse_source::<GapAutoRuleList>("REPEAT(AUTO, 1px solid red)").is_ok());
    assert!(parse_source::<GapRuleList>("Repeat(2, thick DOTTED CurrentColor)").is_ok());
}

#[test]
fn line_widths() {
    for ok in ["0", "0.0", "2em", "0.5px", "+3px", "thin", "medium", "thick"] {
        assert!(parse_source::<GapRuleList>(ok).is_ok(), "{:?}", ok);
    }
    for bad in ["-1px", "2s", "3"] {
        assert!(parse_source::<GapRuleList>(bad).is_err(), "{:?}", bad);
    }
}

#[test]
fn colors() {
    for ok in ["#fff", "#ffff", "#a0b1c2", "#a0b1c2d3", "rebeccapurple", "transparent", "canvastext",
        "rgb(0 0 0)", "hsl(120deg 50% 50% / 0.5)", "color-mix(in srgb, red, rgb(0 0 255))"]
    {
        assert!(parse_source::<GapRuleList>(ok).is_ok(), "{:?}", ok);
    }
    for bad in ["#ff", "#12345", "#ggg", "notacolor", "rgb(0 0 0"] {
        assert!(parse_source::<GapRuleList>(bad).is_err(), "{:?}", bad);
    }
}

#[test]
fn a_color_function_keeps_all_its_tokens() {
    let src = "1px rgb(1 2 3)";
    let ts = tokenize(src);
    let list = match parse_source::<GapRuleList>(src) {
        Ok(l) => l,
        Err(e) => panic!("{:?}", e),
    };
    assert_eq!(cursors_of(&list), ts);
    assert_eq!(list.to_span(), Span { start: 0, end: 14 });
    match &list.0.items[0].0 {
        GapRuleOrRepeat::GapRule(GapRule(_, None, Some(Color { tokens }))) => assert_eq!(tokens, &ts[1..]),
        _ => panic!("not a gap rule with a color"),
    }
}

#[test]
fn repeat_counts() {
    for ok in ["repeat(1, red)", "repeat(+3, red)", "repeat(10, red)", "repeat(auto, red)"] {
        assert!(parse_source::<GapRuleList>(ok).is_ok(), "{:?}", ok);
    }
    for bad in ["repeat(0, red)", "repeat(-2, red)", "repeat(2.5, red)", "repeat(00, red)"] {
        assert!(parse_source::<GapRuleList>(bad).is_err(), "{:?}", bad);
    }
    let src = "repeat(none, red)";
    assert!(peek_source::<GapRuleList>(src));
    assert_eq!(
        parse_source::<GapRuleList>(src).err(),
        Some(ParseError { kind: ErrorKind::Unexpected, at: 1 })
    );
}

#[test]
fn repeat_rule_structure() {
    let src = "repeat(2, 1px solid red, 2px dashed green)";
    let ts = tokenize(src);
    let (rule, end) = match GapRepeatRule::parse(src.as_bytes(), &ts, 0) {
        Ok(r) => r,
        Err(e) => panic!("{:?}", e),
    };
    assert_eq!(end, ts.len());
    assert_eq!(rule.name, ts[0]);
    assert_eq!(rule.count, AutoOr::Count(ts[1]));
    assert_eq!(rule.comma, ts[2]);
    assert_eq!(rule.rules.items.len(), 2);
    assert_eq!(rule.rules.items[0].1, Some(ts[6]));
    assert_eq!(rule.rules.items[1].1, None);
    assert_eq!(rule.close, ts[10]);
    assert_eq!(cursors_of(&rule), ts);
    assert_eq!(rule.to_span(), Span { start: 0, end: 42 });
}

#[test]
fn repeat_rule_errors() {
    let src = "calc(2, red)";
    let ts = tokenize(src);
    assert_eq!(
        GapRepeatRule::parse(src.as_bytes(), &ts, 0).err(),
        Some(ParseError { kind: ErrorKind::UnexpectedIdent, at: 0 })
    );
    let src = "red";
    let ts = tokenize(src);
    assert_eq!(
        GapRepeatRule::parse(src.as_bytes(), &ts, 0).err(),
        Some(ParseError { kind: ErrorKind::Unexpected, at: 0 })
    );
    assert_eq!(
        parse_source::<GapRuleList>("repeat(2 red)").err(),
        Some(ParseError { kind: ErrorKind::Unexpected, at: 0 })
    );
    assert_eq!(
        parse_source::<GapRuleList>("repeat(2, red").err(),
        Some(ParseError { kind: ErrorKind::Unexpected, at: 4 })
    );
}

#[test]
fn a_trailing_comma_is_left_by_a_rule_list() {
    let src = "1px solid red,";
    let ts = tokenize(src);
    match GapRuleList::parse(src.as_bytes(), &ts, 0) {
        Ok((list, end)) => {
            assert_eq!(end, 3);
            assert_eq!(list.0.items.len(), 1);
            assert_eq!(list.0.items[0].1, None);
        }
        Err(e) => panic!("{:?}", e),
    }
    assert_eq!(
        parse_source::<GapRuleList>(src).err(),
        Some(ParseError { kind: ErrorKind::ExpectedEnd, at: 3 })
    );
}

#[test]
fn a_trailing_comma_is_an_error_in_an_auto_rule_list() {
    assert_eq!(
        parse_source::<GapAutoRuleList>("repeat(auto, red),").err(),
        Some(ParseError { kind: ErrorKind::Unexpected, at: 6 })
    );
}

#[test]
fn an_auto_rule_list_needs_exactly_one_auto_repeat() {
    assert_eq!(
        parse_source::<GapAutoRuleList>("1px solid red, 2px dashed green").err(),
        Some(ParseError { kind: ErrorKind::Unexpected, at: 0 })
    );
    assert_eq!(
        parse_source::<GapAutoRuleList>("red, repeat(auto, red), repeat(auto, blue)").err(),
        Some(ParseError { kind: ErrorKind::Unexpected, at: 0 })
    );
    let src = "red, repeat(auto, blue), repeat(2, green)";
    let list = match parse_source::<GapAutoRuleList>(src) {
        Ok(l) => l,
        Err(e) => panic!("{:?}", e),
    };
    let autos = list
        .items
        .iter()
        .filter(|(item, _)| matches!(item, GapAutoRuleListItem::GapAutoRepeatRule(_)))
        .count();
    assert_eq!(autos, 1);
    assert_eq!(list.items.len(), 3);
    assert_eq!(cursors_of(&list), tokenize(src));
    assert_eq!(list.to_span(), Span { start: 0, end: 41 });
}

#[test]
fn auto_rule_list_span_ends_at_the_last_item() {
    let src = "repeat(auto, red)";
    let list = match parse_source::<GapAutoRuleList>(src) {
        Ok(l) => l,
        Err(e) => panic!("{:?}", e),
    };
    assert_eq!(list.to_span(), Span { start: 0, end: 17 });
}

#[test]
fn peeking() {
    assert!(peek_source::<GapRuleList>("red"));
    assert!(peek_source::<GapRuleList>("repeat(2, red)"));
    assert!(!peek_source::<GapRuleList>(", red"));
    assert!(!peek_source::<GapRuleList>(""));
    assert!(!peek_source::<GapRuleList>("repeat(red)"));
    assert!(peek_source::<GapAutoRuleList>("repeat(auto, red)"));
    assert!(!peek_source::<GapAutoRuleList>("foo"));
    assert_eq!(
        parse_source::<GapRuleList>("").err(),
        Some(ParseError { kind: ErrorKind::Unexpected, at: 0 })
    );
}

#[test]
fn span_of_nothing_is_dummy() {
    let rule = GapRule(None, None, None);
    assert_eq!(rule.to_span(), Span { start: u32::MAX, end: u32::MAX });
    assert_eq!(Span::dummy().union(Span { start: 3, end: 5 }), Span { start: 3, end: 5 });
    assert_eq!(Span { start: 7, end: 9 }.union(Span { start: 3, end: 5 }), Span { start: 3, end: 9 });
}

#[test]
fn semantic_equality() {
    let a = parse_source::<GapAutoRuleList>("1px solid red, repeat(auto, rgb(1 2 3) dashed)");
    let b = parse_source::<GapAutoRuleList>("1px solid red, repeat(auto, rgb(1 2 3) dashed)");
    let c = parse_source::<GapAutoRuleList>("1px solid red, repeat(auto, rgb(1 2 4) dashed)");
    match (a, b, c) {
        (Ok(a), Ok(b), Ok(c)) => {
            assert!(a.semantic_eq(&b));
            assert!(!a.semantic_eq(&c));
            assert!(a.semantic_eq(&a));
        }
        _ => panic!("did not parse"),
    }
    let x = parse_source::<GapRuleList>("repeat(2, red)");
    let y = parse_source::<GapRuleList>("repeat(3, red)");
    match (x, y) {
        (Ok(x), Ok(y)) => {
            assert!(!x.semantic_eq(&y));
            assert!(x.semantic_eq(&x));
        }
        _ => panic!("did not parse"),
    }
}

#[test]
fn a_gap_auto_rule_list_is_also_a_gap_rule_list() {
    for src in [
        "repeat(auto, 1px solid red)",
        "1px solid red, repeat(auto, 2px dashed green), 3px dotted blue",
        "repeat(2, red), repeat(auto, thin rgb(1 2 3))",
    ] {
        let auto = match parse_source::<GapAutoRuleList>(src) {
            Ok(l) => l,
            Err(e) => panic!("{:?}: {:?}", src, e),
        };
        let list = match parse_source::<GapRuleList>(src) {
            Ok(l) => l,
            Err(e) => panic!("{:?}: {:?}", src, e),
        };
        assert_eq!(auto.items.len(), list.0.items.len());
        for ((a, ac), (r, rc)) in auto.items.iter().zip(list.0.items.iter()) {
            assert_eq!(ac, rc);
            match (a, r) {
                (GapAutoRuleListItem::GapAutoRepeatRule(x), GapRuleOrRepeat::GapRepeatRule(y)) => {
                    assert_eq!(AutoOr::Auto(x.count), y.count);
                    assert_eq!(x.name, y.name);
                    assert_eq!(x.close, y.close);
                }
                (GapAutoRuleListItem::GapRuleOrRepeat(x), y) => assert!(x.semantic_eq(y)),
                _ => panic!("{:?}: items differ", src),
            }
        }
        assert_eq!(cursors_of(&auto), cursors_of(&list));
    }
}

#[test]
fn escaped_keywords_match_what_they_stand_for() {
    // `\65 ` is `e`, `\72 ` is `r`, `\l` is `l`, `\41` is `A`.
    assert!(parse_source::<GapAutoRuleList>("rep\\65 at(auto, red)").is_ok());
    assert!(parse_source::<GapRuleList>("1px so\\lid \\72 ed").is_ok());
    assert!(parse_source::<GapRuleList>("REPE\\41T(2, \\74hin)").is_ok());
    assert!(parse_source::<GapRuleList>("1p\\78  solid").is_ok());
    assert!(parse_source::<GapAutoRuleList>("repeat(\\61uto, red)").is_ok());
    // Escapes that stand for other letters do not match.
    assert!(parse_source::<GapRuleList>("\\66oo").is_err());
    assert!(parse_source::<GapRuleList>("so\\6Did").is_err());
    assert!(parse_source::<GapAutoRuleList>("rep\\66 at(auto, red)").is_err());
}

#[test]
fn sources_beyond_the_lexers_limits_are_recognised() {
    assert!(check_lexer_limits("1px solid red, repeat(auto, #fff)"));
    assert!(check_lexer_limits(""));
    let at_limit = format!("{}px", "1".repeat(4097));
    assert!(check_lexer_limits(&at_limit));
    // Within the limits the lexer does not fail.
    let _ = tokenize(&at_limit);
    let past_limit = format!("{}px", "1".repeat(4098));
    assert!(!check_lexer_limits(&past_limit));
    let mixed = format!("a {}e+{} b", "2".repeat(2048), "3".repeat(2048));
    assert!(!check_lexer_limits(&mixed));
    let split = format!("{} {}", "2".repeat(4000), "3".repeat(4000));
    assert!(check_lexer_limits(&split));
}

#[test]
fn lists_have_one_more_item_than_commas_and_write_back_in_order() {
    let src = "1px solid red, repeat(2, 2px dashed green, thin), 3px dotted blue";
    let ts = tokenize(src);
    let list = match parse_source::<GapRuleList>(src) {
        Ok(l) => l,
        Err(e) => panic!("{:?}", e),
    };
    let items = &list.0.items;
    assert_eq!(items.len(), 3);
    assert_eq!(items.iter().filter(|(_, c)| c.is_some()).count(), 2);
    assert!(items[..2].iter().all(|(_, c)| c.map(|c| c.kind) == Some(TokenKind::Comma)));
    assert!(items[2].1.is_none());
    // Every rule here is written width, style, color, so the list writes
    // back in source order.
    assert_eq!(cursors_of(&list), ts);
}

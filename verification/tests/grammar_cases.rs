use gap_rules::gap_auto_rule_list::GapAutoRuleList;
use gap_rules::gap_rule_list::GapRuleList;
use gap_rules::syntax::{parse_source, peek_source, Parse, ToCursors};
use gap_rules::token::{tokenize, Cursor};
use gap_rules::values::{ColumnRuleStyleValue, RowRuleStyleValue, RuleStyleValue};

/// Parses `source` as a whole `T`, and checks that writing it back out gives
/// exactly the source's tokens.
fn assert_parse<T: Parse>(source: &str) {
    assert!(peek_source::<T>(source), "{:?} does not peek", source);
    let value = match parse_source::<T>(source) {
        Ok(v) => v,
        Err(e) => panic!("{:?} failed to parse: {:?}", source, e),
    };
    let mut out: Vec<Cursor> = Vec::new();
    value.to_cursors(&mut out);
    out.sort_by_key(|c| c.offset);
    assert_eq!(out, tokenize(source), "{:?} did not write back its tokens", source);
}

/// Checks that `T` peeks at the start of `source` but does not parse it whole.
fn assert_parse_error<T: Parse>(source: &str) {
    assert!(peek_source::<T>(source), "{:?} does not peek", source);
    assert!(parse_source::<T>(source).is_err(), "{:?} parsed", source);
}

#[test]
fn gap_auto_rule_list_test_writes() {
    assert_parse::<GapAutoRuleList>("repeat(auto, 1px solid red)");
    assert_parse::<GapAutoRuleList>("1px solid red, repeat(auto, 2px dashed green)");
    assert_parse::<GapAutoRuleList>("repeat(auto, 1px solid red), 2px dashed green");
    assert_parse::<GapAutoRuleList>("1px solid red, repeat(auto, 2px dashed green), 3px dotted blue");
}

#[test]
fn gap_auto_rule_list_test_errors() {
    assert_parse_error::<GapAutoRuleList>("1px solid red, 2px dashed green");
    assert_parse_error::<GapAutoRuleList>("repeat(auto, 1px solid red), repeat(auto, 2px dashed green)");
    assert_parse_error::<GapAutoRuleList>("repeat(2, 1px solid red)");
    assert_parse_error::<GapAutoRuleList>("repeat(auto,)");
}

#[test]
fn gap_rule_list_test_writes() {
    assert_parse::<GapRuleList>("1px solid red");
    assert_parse::<GapRuleList>("1px solid red, 2px dashed green, 3px dotted blue");
    assert_parse::<GapRuleList>("1px solid red, repeat(2, 2px dashed green)");
    assert_parse::<GapRuleList>("1px solid red, repeat(auto, 2px dashed green)");
    assert_parse::<GapRuleList>("repeat(2, 1px solid red, 2px dashed green)");
    assert_parse::<GapRuleList>("repeat(auto, 1px solid red, 2px dashed green)");
    assert_parse::<GapRuleList>("solid 1px red");
}

#[test]
fn gap_rule_list_test_errors() {
    assert_parse_error::<GapRuleList>("repeat(none, 1px solid red)");
    assert_parse_error::<GapRuleList>("repeat(0, 1px solid red)");
    assert_parse_error::<GapRuleList>("repeat(2,)");
    assert_parse_error::<GapRuleList>("repeat(2, repeat(2, 1px solid red))");
    assert_parse_error::<GapRuleList>("1px solid red,");
    assert_parse_error::<GapRuleList>("1px solid red solid");
}

#[test]
fn impls_test_writes() {
    assert_parse::<ColumnRuleStyleValue>("1px solid red");
    assert_parse::<ColumnRuleStyleValue>("1px solid red, repeat(2, 2px dashed green)");
    assert_parse::<ColumnRuleStyleValue>("repeat(auto, 1px solid red)");
    assert_parse::<ColumnRuleStyleValue>("1px solid red, repeat(auto, 2px dashed green)");
    assert_parse::<RowRuleStyleValue>("repeat(auto, 1px solid red), 2px dashed green");
    assert_parse::<RuleStyleValue>("1px solid red, repeat(2, 2px dashed green)");
    assert_parse::<RuleStyleValue>("repeat(auto, 1px solid red), 2px dashed green");
    assert_parse::<RuleStyleValue>("1px solid red, repeat(auto, 2px dashed green)");
}

#[test]
fn impls_test_errors() {
    assert_parse::<ColumnRuleStyleValue>("repeat(auto, 1px solid red), repeat(auto, 2px dashed green)");
    assert_parse_error::<ColumnRuleStyleValue>("repeat(auto,)");
    assert_parse::<RowRuleStyleValue>("repeat(auto, 1px solid red), repeat(auto, 2px dashed green)");
    assert_parse_error::<RuleStyleValue>("repeat(auto,)");
    assert_parse_error::<RuleStyleValue>("1px solid red,");
}

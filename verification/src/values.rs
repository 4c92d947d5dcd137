//! The values of the gap decoration style properties, which are read as a
//! `<gap-rule-list>`.
use crate::gap_rule_list::{GapRuleList, GapRuleOrRepeatView};
use crate::syntax::{Parse, ParseError, ParseSpan, Peek, SemanticEq, ToCursors, ToSpan};
use crate::token::{Cursor, Span};
use vstd::prelude::*;

verus! {

/// The value of `column-rule-style`.
pub enum ColumnRuleStyleValue {
    GapRuleList(GapRuleList),
}

impl View for ColumnRuleStyleValue {
    type V = Seq<(GapRuleOrRepeatView, Option<Cursor>)>;

    open spec fn view(&self) -> Seq<(GapRuleOrRepeatView, Option<Cursor>)> {
        match self {
            ColumnRuleStyleValue::GapRuleList(l) => l@,
        }
    }
}

impl Peek for ColumnRuleStyleValue {
    open spec fn spec_peek(src: Seq<u8>, ts: Seq<Cursor>, i: int) -> bool {
        GapRuleList::spec_peek(src, ts, i)
    }

    fn peek(src: &[u8], ts: &[Cursor], i: usize) -> (b: bool) {
        GapRuleList::peek(src, ts, i)
    }
}

impl ToCursors for ColumnRuleStyleValue {
    open spec fn spec_cursors(v: Seq<(GapRuleOrRepeatView, Option<Cursor>)>) -> Seq<Cursor> {
        GapRuleList::spec_cursors(v)
    }

    fn to_cursors(&self, s: &mut Vec<Cursor>) {
        match self {
            ColumnRuleStyleValue::GapRuleList(l) => l.to_cursors(s),
        }
    }
}

impl ToSpan for ColumnRuleStyleValue {
    open spec fn spec_span(v: Seq<(GapRuleOrRepeatView, Option<Cursor>)>) -> Span {
        GapRuleList::spec_span(v)
    }

    fn to_span(&self) -> (s: Span) {
        match self {
            ColumnRuleStyleValue::GapRuleList(l) => l.to_span(),
        }
    }
}

impl Parse for ColumnRuleStyleValue {
    /// A gap rule list.
    open spec fn spec_parse(src: Seq<u8>, ts: Seq<Cursor>, i: int) -> Result<
        (Seq<(GapRuleOrRepeatView, Option<Cursor>)>, int),
        ParseError,
    > {
        GapRuleList::spec_parse(src, ts, i)
    }

    proof fn lemma_parse_advances(src: Seq<u8>, ts: Seq<Cursor>, i: int) {
        GapRuleList::lemma_parse_advances(src, ts, i);
    }

    proof fn lemma_parse_implies_peek(src: Seq<u8>, ts: Seq<Cursor>, i: int) {
        GapRuleList::lemma_parse_implies_peek(src, ts, i);
    }

    proof fn lemma_parse_lossless(src: Seq<u8>, ts: Seq<Cursor>, i: int) {
        GapRuleList::lemma_parse_lossless(src, ts, i);
    }

    fn parse(src: &[u8], ts: &[Cursor], i: usize) -> (r: Result<(Self, usize), ParseError>) {
        match GapRuleList::parse(src, ts, i) {
            Err(e) => Err(e),
            Ok((l, e)) => Ok((ColumnRuleStyleValue::GapRuleList(l), e)),
        }
    }
}

/// The value of `row-rule-style`.
pub enum RowRuleStyleValue {
    GapRuleList(GapRuleList),
}

impl View for RowRuleStyleValue {
    type V = Seq<(GapRuleOrRepeatView, Option<Cursor>)>;

    open spec fn view(&self) -> Seq<(GapRuleOrRepeatView, Option<Cursor>)> {
        match self {
            RowRuleStyleValue::GapRuleList(l) => l@,
        }
    }
}

impl Peek for RowRuleStyleValue {
    open spec fn spec_peek(src: Seq<u8>, ts: Seq<Cursor>, i: int) -> bool {
        GapRuleList::spec_peek(src, ts, i)
    }

    fn peek(src: &[u8], ts: &[Cursor], i: usize) -> (b: bool) {
        GapRuleList::peek(src, ts, i)
    }
}

impl ToCursors for RowRuleStyleValue {
    open spec fn spec_cursors(v: Seq<(GapRuleOrRepeatView, Option<Cursor>)>) -> Seq<Cursor> {
        GapRuleList::spec_cursors(v)
    }

    fn to_cursors(&self, s: &mut Vec<Cursor>) {
        match self {
            RowRuleStyleValue::GapRuleList(l) => l.to_cursors(s),
        }
    }
}

impl ToSpan for RowRuleStyleValue {
    open spec fn spec_span(v: Seq<(GapRuleOrRepeatView, Option<Cursor>)>) -> Span {
        GapRuleList::spec_span(v)
    }

    fn to_span(&self) -> (s: Span) {
        match self {
            RowRuleStyleValue::GapRuleList(l) => l.to_span(),
        }
    }
}

impl Parse for RowRuleStyleValue {
    /// A gap rule list.
    open spec fn spec_parse(src: Seq<u8>, ts: Seq<Cursor>, i: int) -> Result<
        (Seq<(GapRuleOrRepeatView, Option<Cursor>)>, int),
        ParseError,
    > {
        GapRuleList::spec_parse(src, ts, i)
    }

    proof fn lemma_parse_advances(src: Seq<u8>, ts: Seq<Cursor>, i: int) {
        GapRuleList::lemma_parse_advances(src, ts, i);
    }

    proof fn lemma_parse_implies_peek(src: Seq<u8>, ts: Seq<Cursor>, i: int) {
        GapRuleList::lemma_parse_implies_peek(src, ts, i);
    }

    proof fn lemma_parse_lossless(src: Seq<u8>, ts: Seq<Cursor>, i: int) {
        GapRuleList::lemma_parse_lossless(src, ts, i);
    }

    fn parse(src: &[u8], ts: &[Cursor], i: usize) -> (r: Result<(Self, usize), ParseError>) {
        match GapRuleList::parse(src, ts, i) {
            Err(e) => Err(e),
            Ok((l, e)) => Ok((RowRuleStyleValue::GapRuleList(l), e)),
        }
    }
}

/// The value of the `rule-style` shorthand.
pub enum RuleStyleValue {
    GapRuleList(GapRuleList),
}

impl View for RuleStyleValue {
    type V = Seq<(GapRuleOrRepeatView, Option<Cursor>)>;

    open spec fn view(&self) -> Seq<(GapRuleOrRepeatView, Option<Cursor>)> {
        match self {
            RuleStyleValue::GapRuleList(l) => l@,
        }
    }
}

impl Peek for RuleStyleValue {
    open spec fn spec_peek(src: Seq<u8>, ts: Seq<Cursor>, i: int) -> bool {
        GapRuleList::spec_peek(src, ts, i)
    }

    fn peek(src: &[u8], ts: &[Cursor], i: usize) -> (b: bool) {
        GapRuleList::peek(src, ts, i)
    }
}

impl ToCursors for RuleStyleValue {
    open spec fn spec_cursors(v: Seq<(GapRuleOrRepeatView, Option<Cursor>)>) -> Seq<Cursor> {
        GapRuleList::spec_cursors(v)
    }

    fn to_cursors(&self, s: &mut Vec<Cursor>) {
        match self {
            RuleStyleValue::GapRuleList(l) => l.to_cursors(s),
        }
    }
}

impl ToSpan for RuleStyleValue {
    open spec fn spec_span(v: Seq<(GapRuleOrRepeatView, Option<Cursor>)>) -> Span {
        GapRuleList::spec_span(v)
    }

    fn to_span(&self) -> (s: Span) {
        match self {
            RuleStyleValue::GapRuleList(l) => l.to_span(),
        }
    }
}

impl Parse for RuleStyleValue {
    /// A gap rule list.
    open spec fn spec_parse(src: Seq<u8>, ts: Seq<Cursor>, i: int) -> Result<
        (Seq<(GapRuleOrRepeatView, Option<Cursor>)>, int),
        ParseError,
    > {
        GapRuleList::spec_parse(src, ts, i)
    }

    proof fn lemma_parse_advances(src: Seq<u8>, ts: Seq<Cursor>, i: int) {
        GapRuleList::lemma_parse_advances(src, ts, i);
    }

    proof fn lemma_parse_implies_peek(src: Seq<u8>, ts: Seq<Cursor>, i: int) {
        GapRuleList::lemma_parse_implies_peek(src, ts, i);
    }

    proof fn lemma_parse_lossless(src: Seq<u8>, ts: Seq<Cursor>, i: int) {
        GapRuleList::lemma_parse_lossless(src, ts, i);
    }

    fn parse(src: &[u8], ts: &[Cursor], i: usize) -> (r: Result<(Self, usize), ParseError>) {
        match GapRuleList::parse(src, ts, i) {
            Err(e) => Err(e),
            Ok((l, e)) => Ok((RuleStyleValue::GapRuleList(l), e)),
        }
    }
}

impl ParseSpan for ColumnRuleStyleValue {
    proof fn lemma_parse_span(src: Seq<u8>, ts: Seq<Cursor>, i: int) {
        GapRuleList::lemma_parse_span(src, ts, i);
    }
}

impl ParseSpan for RowRuleStyleValue {
    proof fn lemma_parse_span(src: Seq<u8>, ts: Seq<Cursor>, i: int) {
        GapRuleList::lemma_parse_span(src, ts, i);
    }
}

impl ParseSpan for RuleStyleValue {
    proof fn lemma_parse_span(src: Seq<u8>, ts: Seq<Cursor>, i: int) {
        GapRuleList::lemma_parse_span(src, ts, i);
    }
}

impl SemanticEq for ColumnRuleStyleValue {
    fn semantic_eq(&self, other: &Self) -> (b: bool) {
        match (self, other) {
            (ColumnRuleStyleValue::GapRuleList(x), ColumnRuleStyleValue::GapRuleList(y)) => x.semantic_eq(y),
        }
    }
}

impl SemanticEq for RowRuleStyleValue {
    fn semantic_eq(&self, other: &Self) -> (b: bool) {
        match (self, other) {
            (RowRuleStyleValue::GapRuleList(x), RowRuleStyleValue::GapRuleList(y)) => x.semantic_eq(y),
        }
    }
}

impl SemanticEq for RuleStyleValue {
    fn semantic_eq(&self, other: &Self) -> (b: bool) {
        match (self, other) {
            (RuleStyleValue::GapRuleList(x), RuleStyleValue::GapRuleList(y)) => x.semantic_eq(y),
        }
    }
}

} // verus!

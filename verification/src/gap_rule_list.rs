//! `<gap-rule-list> = <gap-rule-or-repeat>#`, with
//! `<gap-rule-or-repeat> = <gap-rule> | <gap-repeat-rule>` and
//! `<gap-repeat-rule> = repeat( [ <integer [1,∞]> | auto ] , <gap-rule># )`.
use crate::components::{function_is, function_is_exec, ident_is, ident_is_exec, GapRule};
use crate::keywords::{check_positive_integer, is_positive_integer, range_text, unsigned_part};
use crate::components::numeric_text;
use crate::syntax::{
    CommaSeparated, ErrorKind, Parse, ParseError, ParseSpan, Peek, SemanticEq, ToCursors, ToSpan, error_at, kind_at,
    kind_at_exec, lemma_subrange_multiset_split,
};
use crate::token::{
    Cursor, Span, TokenKind, cursor_span, lemma_cursor_span_range, lemma_range_span_union, span_union,
};
use vstd::prelude::*;

verus! {

/// The count of a repeat: `auto`, or an integer of at least 1.
#[derive(Clone, Copy, Debug, PartialEq, Eq, Structural)]
pub enum AutoOr {
    Auto(Cursor),
    Count(Cursor),
}

impl View for AutoOr {
    type V = AutoOr;

    open spec fn view(&self) -> AutoOr {
        *self
    }
}

pub open spec fn auto_or_cursor(v: AutoOr) -> Cursor {
    match v {
        AutoOr::Auto(c) => c,
        AutoOr::Count(c) => c,
    }
}

impl Peek for AutoOr {
    /// An identifier or a number.
    open spec fn spec_peek(src: Seq<u8>, ts: Seq<Cursor>, i: int) -> bool {
        kind_at(ts, i) == TokenKind::Ident || kind_at(ts, i) == TokenKind::Number
    }

    fn peek(src: &[u8], ts: &[Cursor], i: usize) -> (b: bool) {
        let k = kind_at_exec(ts, i);
        k == TokenKind::Ident || k == TokenKind::Number
    }
}

impl ToCursors for AutoOr {
    open spec fn spec_cursors(v: AutoOr) -> Seq<Cursor> {
        seq![auto_or_cursor(v)]
    }

    fn to_cursors(&self, s: &mut Vec<Cursor>) {
        match self {
            AutoOr::Auto(c) => s.push(*c),
            AutoOr::Count(c) => s.push(*c),
        }
    }
}

impl ToSpan for AutoOr {
    open spec fn spec_span(v: AutoOr) -> Span {
        cursor_span(auto_or_cursor(v))
    }

    fn to_span(&self) -> (s: Span) {
        match self {
            AutoOr::Auto(c) => Span::of(*c),
            AutoOr::Count(c) => Span::of(*c),
        }
    }
}

impl Parse for AutoOr {
    /// `auto`, or a number that is a positive integer.
    open spec fn spec_parse(src: Seq<u8>, ts: Seq<Cursor>, i: int) -> Result<(AutoOr, int), ParseError> {
        if 0 <= i < ts.len() && ident_is(src, ts[i], "auto") {
            Ok((AutoOr::Auto(ts[i]), i + 1))
        } else if 0 <= i < ts.len() && ts[i].kind == TokenKind::Number && is_positive_integer(
            numeric_text(src, ts[i]),
        ) {
            Ok((AutoOr::Count(ts[i]), i + 1))
        } else {
            Err(error_at(ErrorKind::Unexpected, i))
        }
    }

    proof fn lemma_parse_advances(src: Seq<u8>, ts: Seq<Cursor>, i: int) {
    }

    proof fn lemma_parse_implies_peek(src: Seq<u8>, ts: Seq<Cursor>, i: int) {
    }

    proof fn lemma_parse_lossless(src: Seq<u8>, ts: Seq<Cursor>, i: int) {
        if Self::spec_parse(src, ts, i) is Ok {
            assert(ts.subrange(i, i + 1) =~= seq![ts[i]]);
        }
    }

    fn parse(src: &[u8], ts: &[Cursor], i: usize) -> (r: Result<(Self, usize), ParseError>) {
        if i >= ts.len() {
            return Err(ParseError { kind: ErrorKind::Unexpected, at: i });
        }
        let c = ts[i];
        if ident_is_exec(src, c, "auto") {
            Ok((AutoOr::Auto(c), i + 1))
        } else if c.kind == TokenKind::Number && check_positive_integer(
            range_text(src, c.offset as u64, c.offset as u64 + c.num_len as u64),
        ) {
            Ok((AutoOr::Count(c), i + 1))
        } else {
            Err(ParseError { kind: ErrorKind::Unexpected, at: i })
        }
    }
}

/// `repeat( <count> , <gap-rule># )`.
pub struct GapRepeatRule {
    pub name: Cursor,
    pub count: AutoOr,
    pub comma: Cursor,
    pub rules: CommaSeparated<GapRule>,
    pub close: Cursor,
}

pub struct GapRepeatRuleView {
    pub name: Cursor,
    pub count: AutoOr,
    pub comma: Cursor,
    pub rules: Seq<(<GapRule as View>::V, Option<Cursor>)>,
    pub close: Cursor,
}

impl View for GapRepeatRule {
    type V = GapRepeatRuleView;

    open spec fn view(&self) -> GapRepeatRuleView {
        GapRepeatRuleView {
            name: self.name,
            count: self.count,
            comma: self.comma,
            rules: self.rules@,
            close: self.close,
        }
    }
}

impl Peek for GapRepeatRule {
    /// The function `repeat(`, then something that may be a count, then a comma.
    open spec fn spec_peek(src: Seq<u8>, ts: Seq<Cursor>, i: int) -> bool {
        &&& 0 <= i < ts.len()
        &&& function_is(src, ts[i], "repeat")
        &&& AutoOr::spec_peek(src, ts, i + 1)
        &&& kind_at(ts, i + 2) == TokenKind::Comma
    }

    fn peek(src: &[u8], ts: &[Cursor], i: usize) -> (b: bool) {
        i < ts.len() && function_is_exec(src, ts[i], "repeat") && AutoOr::peek(src, ts, i + 1)
            && kind_at_exec(ts, i + 2) == TokenKind::Comma
    }
}

impl ToCursors for GapRepeatRule {
    open spec fn spec_cursors(v: GapRepeatRuleView) -> Seq<Cursor> {
        seq![v.name] + AutoOr::spec_cursors(v.count) + seq![v.comma] + CommaSeparated::<
            GapRule,
        >::spec_cursors(v.rules) + seq![v.close]
    }

    fn to_cursors(&self, s: &mut Vec<Cursor>) {
        s.push(self.name);
        self.count.to_cursors(s);
        s.push(self.comma);
        self.rules.to_cursors(s);
        s.push(self.close);
    }
}

impl ToSpan for GapRepeatRule {
    /// From the function name to the closing parenthesis.
    open spec fn spec_span(v: GapRepeatRuleView) -> Span {
        span_union(cursor_span(v.name), cursor_span(v.close))
    }

    fn to_span(&self) -> (s: Span) {
        Span::of(self.name).union(Span::of(self.close))
    }
}

impl Parse for GapRepeatRule {
    /// The function `repeat(`, the count, a comma, the rules, and `)`.
    open spec fn spec_parse(src: Seq<u8>, ts: Seq<Cursor>, i: int) -> Result<(GapRepeatRuleView, int), ParseError> {
        if kind_at(ts, i) != TokenKind::Function {
            Err(error_at(ErrorKind::Unexpected, i))
        } else if !function_is(src, ts[i], "repeat") {
            Err(error_at(ErrorKind::UnexpectedIdent, i))
        } else {
            match AutoOr::spec_parse(src, ts, i + 1) {
                Err(e) => Err(e),
                Ok((count, e1)) => {
                    if kind_at(ts, e1) != TokenKind::Comma {
                        Err(error_at(ErrorKind::Unexpected, e1))
                    } else {
                        match CommaSeparated::<GapRule>::spec_parse(src, ts, e1 + 1) {
                            Err(e) => Err(e),
                            Ok((rules, e2)) => {
                                if kind_at(ts, e2) != TokenKind::RightParen {
                                    Err(error_at(ErrorKind::Unexpected, e2))
                                } else {
                                    Ok(
                                        (
                                            GapRepeatRuleView {
                                                name: ts[i],
                                                count,
                                                comma: ts[e1],
                                                rules,
                                                close: ts[e2],
                                            },
                                            e2 + 1,
                                        ),
                                    )
                                }
                            },
                        }
                    }
                },
            }
        }
    }

    proof fn lemma_parse_advances(src: Seq<u8>, ts: Seq<Cursor>, i: int) {
        if i + 3 <= ts.len() {
            CommaSeparated::<GapRule>::lemma_parse_advances(src, ts, i + 3);
        }
    }

    proof fn lemma_parse_implies_peek(src: Seq<u8>, ts: Seq<Cursor>, i: int) {
    }

    proof fn lemma_parse_lossless(src: Seq<u8>, ts: Seq<Cursor>, i: int) {
        broadcast use vstd::seq_lib::lemma_multiset_commutative;
        broadcast use vstd::multiset::group_multiset_axioms;

        if let Ok((v, e)) = Self::spec_parse(src, ts, i) {
            let e2 = e - 1;
            CommaSeparated::<GapRule>::lemma_parse_advances(src, ts, i + 3);
            CommaSeparated::<GapRule>::lemma_parse_lossless(src, ts, i + 3);
            lemma_subrange_multiset_split(ts, i, i + 3, e);
            lemma_subrange_multiset_split(ts, i + 3, e2, e);
            assert(ts.subrange(i, i + 3) =~= seq![v.name] + AutoOr::spec_cursors(v.count) + seq![
                v.comma]);
            assert(ts.subrange(e2, e) =~= seq![v.close]);
        }
    }

    fn parse(src: &[u8], ts: &[Cursor], i: usize) -> (r: Result<(Self, usize), ParseError>) {
        if kind_at_exec(ts, i) != TokenKind::Function {
            return Err(ParseError { kind: ErrorKind::Unexpected, at: i });
        }
        let name = ts[i];
        if !function_is_exec(src, name, "repeat") {
            return Err(ParseError { kind: ErrorKind::UnexpectedIdent, at: i });
        }
        let (count, e1) = match AutoOr::parse(src, ts, i + 1) {
            Err(e) => {
                return Err(e);
            },
            Ok(r) => r,
        };
        if kind_at_exec(ts, e1) != TokenKind::Comma {
            return Err(ParseError { kind: ErrorKind::Unexpected, at: e1 });
        }
        let comma = ts[e1];
        let (rules, e2) = match CommaSeparated::<GapRule>::parse(src, ts, e1 + 1) {
            Err(e) => {
                return Err(e);
            },
            Ok(r) => r,
        };
        proof {
            CommaSeparated::<GapRule>::lemma_parse_advances(src@, ts@, e1 + 1);
        }
        if kind_at_exec(ts, e2) != TokenKind::RightParen {
            return Err(ParseError { kind: ErrorKind::Unexpected, at: e2 });
        }
        let close = ts[e2];
        Ok((GapRepeatRule { name, count, comma, rules, close }, e2 + 1))
    }
}


/// `<gap-rule-or-repeat> = <gap-rule> | <gap-repeat-rule>`.
pub enum GapRuleOrRepeat {
    GapRule(GapRule),
    GapRepeatRule(GapRepeatRule),
}

pub enum GapRuleOrRepeatView {
    GapRule(<GapRule as View>::V),
    GapRepeatRule(GapRepeatRuleView),
}

impl View for GapRuleOrRepeat {
    type V = GapRuleOrRepeatView;

    open spec fn view(&self) -> GapRuleOrRepeatView {
        match self {
            GapRuleOrRepeat::GapRule(r) => GapRuleOrRepeatView::GapRule(r@),
            GapRuleOrRepeat::GapRepeatRule(r) => GapRuleOrRepeatView::GapRepeatRule(r@),
        }
    }
}

impl Peek for GapRuleOrRepeat {
    open spec fn spec_peek(src: Seq<u8>, ts: Seq<Cursor>, i: int) -> bool {
        GapRule::spec_peek(src, ts, i) || GapRepeatRule::spec_peek(src, ts, i)
    }

    fn peek(src: &[u8], ts: &[Cursor], i: usize) -> (b: bool) {
        GapRule::peek(src, ts, i) || GapRepeatRule::peek(src, ts, i)
    }
}

impl ToCursors for GapRuleOrRepeat {
    open spec fn spec_cursors(v: GapRuleOrRepeatView) -> Seq<Cursor> {
        match v {
            GapRuleOrRepeatView::GapRule(r) => GapRule::spec_cursors(r),
            GapRuleOrRepeatView::GapRepeatRule(r) => GapRepeatRule::spec_cursors(r),
        }
    }

    fn to_cursors(&self, s: &mut Vec<Cursor>) {
        match self {
            GapRuleOrRepeat::GapRule(r) => r.to_cursors(s),
            GapRuleOrRepeat::GapRepeatRule(r) => r.to_cursors(s),
        }
    }
}

impl ToSpan for GapRuleOrRepeat {
    open spec fn spec_span(v: GapRuleOrRepeatView) -> Span {
        match v {
            GapRuleOrRepeatView::GapRule(r) => GapRule::spec_span(r),
            GapRuleOrRepeatView::GapRepeatRule(r) => GapRepeatRule::spec_span(r),
        }
    }

    fn to_span(&self) -> (s: Span) {
        match self {
            GapRuleOrRepeat::GapRule(r) => r.to_span(),
            GapRuleOrRepeat::GapRepeatRule(r) => r.to_span(),
        }
    }
}

impl Parse for GapRuleOrRepeat {
    /// A gap rule if one peeks, else a repeat if one peeks, else an error.
    open spec fn spec_parse(src: Seq<u8>, ts: Seq<Cursor>, i: int) -> Result<(GapRuleOrRepeatView, int), ParseError> {
        if GapRule::spec_peek(src, ts, i) {
            match GapRule::spec_parse(src, ts, i) {
                Err(e) => Err(e),
                Ok((r, e)) => Ok((GapRuleOrRepeatView::GapRule(r), e)),
            }
        } else if GapRepeatRule::spec_peek(src, ts, i) {
            match GapRepeatRule::spec_parse(src, ts, i) {
                Err(e) => Err(e),
                Ok((r, e)) => Ok((GapRuleOrRepeatView::GapRepeatRule(r), e)),
            }
        } else {
            Err(error_at(ErrorKind::Unexpected, i))
        }
    }

    proof fn lemma_parse_advances(src: Seq<u8>, ts: Seq<Cursor>, i: int) {
        GapRule::lemma_parse_advances(src, ts, i);
        GapRepeatRule::lemma_parse_advances(src, ts, i);
    }

    proof fn lemma_parse_implies_peek(src: Seq<u8>, ts: Seq<Cursor>, i: int) {
    }

    proof fn lemma_parse_lossless(src: Seq<u8>, ts: Seq<Cursor>, i: int) {
        GapRule::lemma_parse_lossless(src, ts, i);
        GapRepeatRule::lemma_parse_lossless(src, ts, i);
    }

    fn parse(src: &[u8], ts: &[Cursor], i: usize) -> (r: Result<(Self, usize), ParseError>) {
        if GapRule::peek(src, ts, i) {
            match GapRule::parse(src, ts, i) {
                Err(e) => Err(e),
                Ok((r, e)) => Ok((GapRuleOrRepeat::GapRule(r), e)),
            }
        } else if GapRepeatRule::peek(src, ts, i) {
            match GapRepeatRule::parse(src, ts, i) {
                Err(e) => Err(e),
                Ok((r, e)) => Ok((GapRuleOrRepeat::GapRepeatRule(r), e)),
            }
        } else {
            Err(ParseError { kind: ErrorKind::Unexpected, at: i })
        }
    }
}

/// `<gap-rule-list> = <gap-rule-or-repeat>#`.
pub struct GapRuleList(pub CommaSeparated<GapRuleOrRepeat>);

impl View for GapRuleList {
    type V = Seq<(GapRuleOrRepeatView, Option<Cursor>)>;

    open spec fn view(&self) -> Seq<(GapRuleOrRepeatView, Option<Cursor>)> {
        self.0@
    }
}

impl Peek for GapRuleList {
    open spec fn spec_peek(src: Seq<u8>, ts: Seq<Cursor>, i: int) -> bool {
        CommaSeparated::<GapRuleOrRepeat>::spec_peek(src, ts, i)
    }

    fn peek(src: &[u8], ts: &[Cursor], i: usize) -> (b: bool) {
        CommaSeparated::<GapRuleOrRepeat>::peek(src, ts, i)
    }
}

impl ToCursors for GapRuleList {
    open spec fn spec_cursors(v: Seq<(GapRuleOrRepeatView, Option<Cursor>)>) -> Seq<Cursor> {
        CommaSeparated::<GapRuleOrRepeat>::spec_cursors(v)
    }

    fn to_cursors(&self, s: &mut Vec<Cursor>) {
        self.0.to_cursors(s);
    }
}

impl ToSpan for GapRuleList {
    open spec fn spec_span(v: Seq<(GapRuleOrRepeatView, Option<Cursor>)>) -> Span {
        CommaSeparated::<GapRuleOrRepeat>::spec_span(v)
    }

    fn to_span(&self) -> (s: Span) {
        self.0.to_span()
    }
}

impl Parse for GapRuleList {
    open spec fn spec_parse(src: Seq<u8>, ts: Seq<Cursor>, i: int) -> Result<
        (Seq<(GapRuleOrRepeatView, Option<Cursor>)>, int),
        ParseError,
    > {
        CommaSeparated::<GapRuleOrRepeat>::spec_parse(src, ts, i)
    }

    proof fn lemma_parse_advances(src: Seq<u8>, ts: Seq<Cursor>, i: int) {
        CommaSeparated::<GapRuleOrRepeat>::lemma_parse_advances(src, ts, i);
    }

    proof fn lemma_parse_implies_peek(src: Seq<u8>, ts: Seq<Cursor>, i: int) {
        CommaSeparated::<GapRuleOrRepeat>::lemma_parse_implies_peek(src, ts, i);
    }

    proof fn lemma_parse_lossless(src: Seq<u8>, ts: Seq<Cursor>, i: int) {
        CommaSeparated::<GapRuleOrRepeat>::lemma_parse_lossless(src, ts, i);
    }

    fn parse(src: &[u8], ts: &[Cursor], i: usize) -> (r: Result<(Self, usize), ParseError>) {
        match CommaSeparated::<GapRuleOrRepeat>::parse(src, ts, i) {
            Err(e) => Err(e),
            Ok((l, e)) => Ok((GapRuleList(l), e)),
        }
    }
}


impl ParseSpan for AutoOr {
    proof fn lemma_parse_span(src: Seq<u8>, ts: Seq<Cursor>, i: int) {
        if Self::spec_parse(src, ts, i) is Ok {
            lemma_cursor_span_range(ts, i);
        }
    }
}

impl ParseSpan for GapRepeatRule {
    proof fn lemma_parse_span(src: Seq<u8>, ts: Seq<Cursor>, i: int) {
        if i + 3 <= ts.len() {
            CommaSeparated::<GapRule>::lemma_parse_advances(src, ts, i + 3);
        }
        if let Ok((v, e)) = Self::spec_parse(src, ts, i) {
            lemma_cursor_span_range(ts, i);
            lemma_cursor_span_range(ts, e - 1);
            lemma_range_span_union(ts, i, i + 1, e - 1, e);
        }
    }
}

impl ParseSpan for GapRuleOrRepeat {
    proof fn lemma_parse_span(src: Seq<u8>, ts: Seq<Cursor>, i: int) {
        GapRule::lemma_parse_span(src, ts, i);
        GapRepeatRule::lemma_parse_span(src, ts, i);
    }
}

impl ParseSpan for GapRuleList {
    proof fn lemma_parse_span(src: Seq<u8>, ts: Seq<Cursor>, i: int) {
        CommaSeparated::<GapRuleOrRepeat>::lemma_parse_span(src, ts, i);
    }
}

impl SemanticEq for AutoOr {
    fn semantic_eq(&self, other: &Self) -> (b: bool) {
        match (self, other) {
            (AutoOr::Auto(x), AutoOr::Auto(y)) => *x == *y,
            (AutoOr::Count(x), AutoOr::Count(y)) => *x == *y,
            _ => false,
        }
    }
}

impl SemanticEq for GapRepeatRule {
    fn semantic_eq(&self, other: &Self) -> (b: bool) {
        self.name == other.name && self.count.semantic_eq(&other.count) && self.comma == other.comma
            && self.rules.semantic_eq(&other.rules) && self.close == other.close
    }
}

impl SemanticEq for GapRuleOrRepeat {
    fn semantic_eq(&self, other: &Self) -> (b: bool) {
        match (self, other) {
            (GapRuleOrRepeat::GapRule(x), GapRuleOrRepeat::GapRule(y)) => x.semantic_eq(y),
            (GapRuleOrRepeat::GapRepeatRule(x), GapRuleOrRepeat::GapRepeatRule(y)) => x.semantic_eq(y),
            _ => false,
        }
    }
}

impl SemanticEq for GapRuleList {
    fn semantic_eq(&self, other: &Self) -> (b: bool) {
        self.0.semantic_eq(&other.0)
    }
}


/// The count of a repeat: a number written with digits alone is a count
/// exactly when one of its digits is not zero; the identifier `auto`, in any
/// ASCII case, is the count `auto`.
pub proof fn lemma_repeat_counts(src: Seq<u8>, ts: Seq<Cursor>, i: int)
    requires
        0 <= i < ts.len(),
    ensures
        ({
            let t = numeric_text(src, ts[i]);
            ts[i].kind == TokenKind::Number && t.len() > 0 && (forall|k: int|
                0 <= k < t.len() ==> 0x30 <= #[trigger] t[k] <= 0x39) ==> ((AutoOr::spec_parse(src, ts, i)
                is Ok) <==> exists|k: int| 0 <= k < t.len() && #[trigger] t[k] != 0x30)
        }),
        ({
            let t = numeric_text(src, ts[i]);
            ts[i].kind == TokenKind::Number && t.len() > 0 && (forall|k: int|
                0 <= k < t.len() ==> 0x30 <= #[trigger] t[k] <= 0x39) && (exists|k: int|
                0 <= k < t.len() && #[trigger] t[k] != 0x30) ==> AutoOr::spec_parse(src, ts, i) == Ok::<
                (AutoOr, int),
                ParseError,
            >((AutoOr::Count(ts[i]), i + 1))
        }),
        ident_is(src, ts[i], "auto") ==> AutoOr::spec_parse(src, ts, i) == Ok::<(AutoOr, int), ParseError>(
            (AutoOr::Auto(ts[i]), i + 1),
        ),
{
    let t = numeric_text(src, ts[i]);
    if t.len() > 0 && forall|k: int| 0 <= k < t.len() ==> 0x30 <= #[trigger] t[k] <= 0x39 {
        assert(t[0] != 0x2b && t[0] != 0x2d);
        assert(unsigned_part(t) == t);
    }
}

} // verus!

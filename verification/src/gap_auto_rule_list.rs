//! `<gap-auto-rule-list> = <gap-rule-or-repeat>#? , <gap-auto-repeat-rule> ,
//! <gap-rule-or-repeat>#?`, with
//! `<gap-auto-repeat-rule> = repeat( auto , <gap-rule># )`: a comma-separated
//! list of items of which exactly one is an auto repeat.
use crate::components::{
    function_is, function_is_exec, ident_is, ident_is_exec, lemma_repeat_is_not_a_color_function,
    GapRule,
};
use crate::gap_rule_list::{
    AutoOr, GapRepeatRule, GapRepeatRuleView, GapRuleList, GapRuleOrRepeat, GapRuleOrRepeatView,
};
use crate::syntax::{
    ErrorKind, Parse, ParseError, ParseSpan, Peek, SemanticEq, pairs_eq, ToCursors, ToSpan, error_at, kind_at,
    comma_list_from, comma_separated_from, kind_at_exec, lemma_comma_list_agrees, lemma_comma_separated_agrees, CommaSeparated,
    lemma_comma_list_from, lemma_comma_list_span, spec_parse_source, lemma_subrange_multiset_split,
    pairs_cursors, pairs_to_cursors, pairs_view, parse_comma_separated,
    spec_parse_comma_separated,
};
use crate::token::{
    Cursor, Span, TokenKind, cursor_span, lemma_cursor_span_range, lemma_range_span_union, range_span,
    span_union, tokens_ordered,
};
use vstd::prelude::*;
use vstd::string::StringSliceAdditionalSpecFns;

verus! {

/// `repeat( auto , <gap-rule># )`.
pub struct GapAutoRepeatRule {
    pub name: Cursor,
    pub count: Cursor,
    pub comma: Cursor,
    pub rules: Vec<(GapRule, Option<Cursor>)>,
    pub close: Cursor,
}

pub struct GapAutoRepeatRuleView {
    pub name: Cursor,
    pub count: Cursor,
    pub comma: Cursor,
    pub rules: Seq<(<GapRule as View>::V, Option<Cursor>)>,
    pub close: Cursor,
}

impl View for GapAutoRepeatRule {
    type V = GapAutoRepeatRuleView;

    open spec fn view(&self) -> GapAutoRepeatRuleView {
        GapAutoRepeatRuleView {
            name: self.name,
            count: self.count,
            comma: self.comma,
            rules: pairs_view(self.rules@),
            close: self.close,
        }
    }
}

impl Peek for GapAutoRepeatRule {
    /// The function `repeat(`, the identifier `auto`, and a comma.
    open spec fn spec_peek(src: Seq<u8>, ts: Seq<Cursor>, i: int) -> bool {
        &&& 0 <= i < ts.len()
        &&& function_is(src, ts[i], "repeat")
        &&& i + 1 < ts.len()
        &&& ident_is(src, ts[i + 1], "auto")
        &&& kind_at(ts, i + 2) == TokenKind::Comma
    }

    fn peek(src: &[u8], ts: &[Cursor], i: usize) -> (b: bool) {
        i < ts.len() && function_is_exec(src, ts[i], "repeat") && i + 1 < ts.len() && ident_is_exec(
            src,
            ts[i + 1],
            "auto",
        ) && kind_at_exec(ts, i + 2) == TokenKind::Comma
    }
}

impl ToCursors for GapAutoRepeatRule {
    /// The name, `auto`, the comma, each rule and its comma, and `)`.
    open spec fn spec_cursors(v: GapAutoRepeatRuleView) -> Seq<Cursor> {
        seq![v.name, v.count, v.comma] + pairs_cursors::<GapRule>(v.rules) + seq![v.close]
    }

    fn to_cursors(&self, s: &mut Vec<Cursor>) {
        let ghost start = s@;
        s.push(self.name);
        s.push(self.count);
        s.push(self.comma);
        assert(s@ =~= start + seq![self.name, self.count, self.comma]);
        pairs_to_cursors(&self.rules, s);
        s.push(self.close);
        assert(s@ =~= start + Self::spec_cursors(self@));
    }
}

impl ToSpan for GapAutoRepeatRule {
    /// From the function name to the closing parenthesis.
    open spec fn spec_span(v: GapAutoRepeatRuleView) -> Span {
        span_union(cursor_span(v.name), cursor_span(v.close))
    }

    fn to_span(&self) -> (s: Span) {
        Span::of(self.name).union(Span::of(self.close))
    }
}

impl Parse for GapAutoRepeatRule {
    /// The function `repeat(`, the identifier `auto`, a comma, the rules
    /// (a comma after a rule requires another rule), and `)`.
    open spec fn spec_parse(src: Seq<u8>, ts: Seq<Cursor>, i: int) -> Result<(GapAutoRepeatRuleView, int), ParseError> {
        if kind_at(ts, i) != TokenKind::Function {
            Err(error_at(ErrorKind::Unexpected, i))
        } else if !function_is(src, ts[i], "repeat") {
            Err(error_at(ErrorKind::UnexpectedIdent, i))
        } else if kind_at(ts, i + 1) != TokenKind::Ident {
            Err(error_at(ErrorKind::Unexpected, i + 1))
        } else if !ident_is(src, ts[i + 1], "auto") {
            Err(error_at(ErrorKind::UnexpectedIdent, i + 1))
        } else if kind_at(ts, i + 2) != TokenKind::Comma {
            Err(error_at(ErrorKind::Unexpected, i + 2))
        } else {
            match spec_parse_comma_separated::<GapRule>(src, ts, i + 3) {
                Err(e) => Err(e),
                Ok((rules, e2)) => {
                    if kind_at(ts, e2) != TokenKind::RightParen {
                        Err(error_at(ErrorKind::Unexpected, e2))
                    } else {
                        Ok(
                            (
                                GapAutoRepeatRuleView {
                                    name: ts[i],
                                    count: ts[i + 1],
                                    comma: ts[i + 2],
                                    rules,
                                    close: ts[e2],
                                },
                                e2 + 1,
                            ),
                        )
                    }
                },
            }
        }
    }

    proof fn lemma_parse_advances(src: Seq<u8>, ts: Seq<Cursor>, i: int) {
        if i + 3 <= ts.len() {
            lemma_comma_list_from::<GapRule>(src, ts, i + 3, Seq::empty());
        }
    }

    proof fn lemma_parse_implies_peek(src: Seq<u8>, ts: Seq<Cursor>, i: int) {
    }

    proof fn lemma_parse_lossless(src: Seq<u8>, ts: Seq<Cursor>, i: int) {
        broadcast use vstd::seq_lib::lemma_multiset_commutative;
        broadcast use vstd::multiset::group_multiset_axioms;

        if let Ok((v, e)) = Self::spec_parse(src, ts, i) {
            let e2 = e - 1;
            lemma_comma_list_from::<GapRule>(src, ts, i + 3, Seq::empty());
            assert(pairs_cursors::<GapRule>(Seq::empty()) =~= Seq::<Cursor>::empty());
            let sub = ts.subrange(i + 3, e2);
            vstd::seq_lib::lemma_multiset_commutative(Seq::<Cursor>::empty(), sub);
            assert(Seq::<Cursor>::empty() + sub =~= sub);
            lemma_subrange_multiset_split(ts, i, i + 3, e);
            lemma_subrange_multiset_split(ts, i + 3, e2, e);
            assert(ts.subrange(i, i + 3) =~= seq![v.name, v.count, v.comma]);
            assert(ts.subrange(e2, e) =~= seq![v.close]);
        }
    }

    fn parse(src: &[u8], ts: &[Cursor], i: usize) -> (r: Result<(Self, usize), ParseError>) {
        if kind_at_exec(ts, i) != TokenKind::Function {
            return Err(ParseError { kind: ErrorKind::Unexpected, at: i });
        }
        let name = ts[i];
        if !function_is_exec(src, name, "repeat") {
            return Err(ParseError { kind: ErrorKind::UnexpectedIdent, at: i });
        }
        if kind_at_exec(ts, i + 1) != TokenKind::Ident {
            return Err(ParseError { kind: ErrorKind::Unexpected, at: i + 1 });
        }
        let count = ts[i + 1];
        if !ident_is_exec(src, count, "auto") {
            return Err(ParseError { kind: ErrorKind::UnexpectedIdent, at: i + 1 });
        }
        if kind_at_exec(ts, i + 2) != TokenKind::Comma {
            return Err(ParseError { kind: ErrorKind::Unexpected, at: i + 2 });
        }
        let comma = ts[i + 2];
        let (rules, e2) = match parse_comma_separated::<GapRule>(src, ts, i + 3) {
            Err(e) => {
                return Err(e);
            },
            Ok(r) => r,
        };
        proof {
            lemma_comma_list_from::<GapRule>(src@, ts@, i + 3, Seq::empty());
        }
        if kind_at_exec(ts, e2) != TokenKind::RightParen {
            return Err(ParseError { kind: ErrorKind::Unexpected, at: e2 });
        }
        let close = ts[e2];
        Ok((GapAutoRepeatRule { name, count, comma, rules, close }, e2 + 1))
    }
}

/// An item of a gap auto rule list: an auto repeat, or a rule or repeat.
pub enum GapAutoRuleListItem {
    GapAutoRepeatRule(GapAutoRepeatRule),
    GapRuleOrRepeat(GapRuleOrRepeat),
}

pub enum GapAutoRuleListItemView {
    GapAutoRepeatRule(GapAutoRepeatRuleView),
    GapRuleOrRepeat(GapRuleOrRepeatView),
}

impl View for GapAutoRuleListItem {
    type V = GapAutoRuleListItemView;

    open spec fn view(&self) -> GapAutoRuleListItemView {
        match self {
            GapAutoRuleListItem::GapAutoRepeatRule(r) => GapAutoRuleListItemView::GapAutoRepeatRule(r@),
            GapAutoRuleListItem::GapRuleOrRepeat(r) => GapAutoRuleListItemView::GapRuleOrRepeat(r@),
        }
    }
}

impl Peek for GapAutoRuleListItem {
    open spec fn spec_peek(src: Seq<u8>, ts: Seq<Cursor>, i: int) -> bool {
        GapAutoRepeatRule::spec_peek(src, ts, i) || GapRuleOrRepeat::spec_peek(src, ts, i)
    }

    fn peek(src: &[u8], ts: &[Cursor], i: usize) -> (b: bool) {
        GapAutoRepeatRule::peek(src, ts, i) || GapRuleOrRepeat::peek(src, ts, i)
    }
}

impl ToCursors for GapAutoRuleListItem {
    open spec fn spec_cursors(v: GapAutoRuleListItemView) -> Seq<Cursor> {
        match v {
            GapAutoRuleListItemView::GapAutoRepeatRule(r) => GapAutoRepeatRule::spec_cursors(r),
            GapAutoRuleListItemView::GapRuleOrRepeat(r) => GapRuleOrRepeat::spec_cursors(r),
        }
    }

    fn to_cursors(&self, s: &mut Vec<Cursor>) {
        match self {
            GapAutoRuleListItem::GapAutoRepeatRule(r) => r.to_cursors(s),
            GapAutoRuleListItem::GapRuleOrRepeat(r) => r.to_cursors(s),
        }
    }
}

impl ToSpan for GapAutoRuleListItem {
    open spec fn spec_span(v: GapAutoRuleListItemView) -> Span {
        match v {
            GapAutoRuleListItemView::GapAutoRepeatRule(r) => GapAutoRepeatRule::spec_span(r),
            GapAutoRuleListItemView::GapRuleOrRepeat(r) => GapRuleOrRepeat::spec_span(r),
        }
    }

    fn to_span(&self) -> (s: Span) {
        match self {
            GapAutoRuleListItem::GapAutoRepeatRule(r) => r.to_span(),
            GapAutoRuleListItem::GapRuleOrRepeat(r) => r.to_span(),
        }
    }
}

impl Parse for GapAutoRuleListItem {
    /// An auto repeat if one peeks, else a rule or repeat.
    open spec fn spec_parse(src: Seq<u8>, ts: Seq<Cursor>, i: int) -> Result<(GapAutoRuleListItemView, int), ParseError> {
        if GapAutoRepeatRule::spec_peek(src, ts, i) {
            match GapAutoRepeatRule::spec_parse(src, ts, i) {
                Err(e) => Err(e),
                Ok((r, e)) => Ok((GapAutoRuleListItemView::GapAutoRepeatRule(r), e)),
            }
        } else {
            match GapRuleOrRepeat::spec_parse(src, ts, i) {
                Err(e) => Err(e),
                Ok((r, e)) => Ok((GapAutoRuleListItemView::GapRuleOrRepeat(r), e)),
            }
        }
    }

    proof fn lemma_parse_advances(src: Seq<u8>, ts: Seq<Cursor>, i: int) {
        GapAutoRepeatRule::lemma_parse_advances(src, ts, i);
        GapRuleOrRepeat::lemma_parse_advances(src, ts, i);
    }

    proof fn lemma_parse_implies_peek(src: Seq<u8>, ts: Seq<Cursor>, i: int) {
        GapRuleOrRepeat::lemma_parse_implies_peek(src, ts, i);
    }

    proof fn lemma_parse_lossless(src: Seq<u8>, ts: Seq<Cursor>, i: int) {
        GapAutoRepeatRule::lemma_parse_lossless(src, ts, i);
        GapRuleOrRepeat::lemma_parse_lossless(src, ts, i);
    }

    fn parse(src: &[u8], ts: &[Cursor], i: usize) -> (r: Result<(Self, usize), ParseError>) {
        if GapAutoRepeatRule::peek(src, ts, i) {
            match GapAutoRepeatRule::parse(src, ts, i) {
                Err(e) => Err(e),
                Ok((r, e)) => Ok((GapAutoRuleListItem::GapAutoRepeatRule(r), e)),
            }
        } else {
            match GapRuleOrRepeat::parse(src, ts, i) {
                Err(e) => Err(e),
                Ok((r, e)) => Ok((GapAutoRuleListItem::GapRuleOrRepeat(r), e)),
            }
        }
    }
}

/// The number of auto repeats among the items.
pub open spec fn auto_repeat_count(items: Seq<(GapAutoRuleListItemView, Option<Cursor>)>) -> nat
    decreases items.len(),
{
    if items.len() == 0 {
        0
    } else {
        auto_repeat_count(items.drop_last()) + if items.last().0 is GapAutoRepeatRule {
            1nat
        } else {
            0nat
        }
    }
}

/// Counts the auto repeats among the items.
pub fn count_auto_repeats(items: &Vec<(GapAutoRuleListItem, Option<Cursor>)>) -> (n: usize)
    ensures
        n == auto_repeat_count(pairs_view(items@)),
{
    let mut n: usize = 0;
    let mut k: usize = 0;
    while k < items.len()
        invariant
            k <= items@.len(),
            n <= k,
            n == auto_repeat_count(pairs_view(items@.take(k as int))),
        decreases items@.len() - k,
    {
        proof {
            assert(pairs_view(items@.take(k + 1)).drop_last() =~= pairs_view(items@.take(k as int)));
        }
        match &items[k].0 {
            GapAutoRuleListItem::GapAutoRepeatRule(_) => {
                n = n + 1;
            },
            GapAutoRuleListItem::GapRuleOrRepeat(_) => {},
        }
        k = k + 1;
    }
    assert(items@.take(k as int) =~= items@);
    n
}

/// `<gap-auto-rule-list>`: comma-separated items, exactly one of them an
/// auto repeat.
pub struct GapAutoRuleList {
    pub items: Vec<(GapAutoRuleListItem, Option<Cursor>)>,
}

impl View for GapAutoRuleList {
    type V = Seq<(GapAutoRuleListItemView, Option<Cursor>)>;

    open spec fn view(&self) -> Seq<(GapAutoRuleListItemView, Option<Cursor>)> {
        pairs_view(self.items@)
    }
}

impl Peek for GapAutoRuleList {
    open spec fn spec_peek(src: Seq<u8>, ts: Seq<Cursor>, i: int) -> bool {
        GapAutoRuleListItem::spec_peek(src, ts, i)
    }

    fn peek(src: &[u8], ts: &[Cursor], i: usize) -> (b: bool) {
        GapAutoRuleListItem::peek(src, ts, i)
    }
}

impl ToCursors for GapAutoRuleList {
    /// Each item, then its comma.
    open spec fn spec_cursors(v: Seq<(GapAutoRuleListItemView, Option<Cursor>)>) -> Seq<Cursor> {
        pairs_cursors::<GapAutoRuleListItem>(v)
    }

    fn to_cursors(&self, s: &mut Vec<Cursor>) {
        pairs_to_cursors(&self.items, s);
    }
}

/// The span of a gap auto rule list: its first item's span joined with the
/// span of the last comma, or of the last item when no comma follows it.
pub open spec fn auto_rule_list_span(v: Seq<(GapAutoRuleListItemView, Option<Cursor>)>) -> Span
    recommends
        v.len() > 0,
{
    span_union(
        GapAutoRuleListItem::spec_span(v[0].0),
        match v.last().1 {
            Some(c) => cursor_span(c),
            None => GapAutoRuleListItem::spec_span(v.last().0),
        },
    )
}

impl GapAutoRuleList {
    /// The source span of the list (a list always has at least one item).
    pub fn to_span(&self) -> (s: Span)
        requires
            self.items@.len() > 0,
        ensures
            s == auto_rule_list_span(self@),
    {
        let first = self.items[0].0.to_span();
        let last = &self.items[self.items.len() - 1];
        let last_span = match last.1 {
            Some(c) => Span::of(c),
            None => last.0.to_span(),
        };
        first.union(last_span)
    }
}

impl Parse for GapAutoRuleList {
    /// The comma-separated items, which must hold exactly one auto repeat;
    /// otherwise the error is at the start of the list.
    open spec fn spec_parse(src: Seq<u8>, ts: Seq<Cursor>, i: int) -> Result<
        (Seq<(GapAutoRuleListItemView, Option<Cursor>)>, int),
        ParseError,
    > {
        match spec_parse_comma_separated::<GapAutoRuleListItem>(src, ts, i) {
            Err(e) => Err(e),
            Ok((items, e)) => {
                if auto_repeat_count(items) != 1 {
                    Err(error_at(ErrorKind::Unexpected, i))
                } else {
                    Ok((items, e))
                }
            },
        }
    }

    proof fn lemma_parse_advances(src: Seq<u8>, ts: Seq<Cursor>, i: int) {
        lemma_comma_list_from::<GapAutoRuleListItem>(src, ts, i, Seq::empty());
    }

    proof fn lemma_parse_implies_peek(src: Seq<u8>, ts: Seq<Cursor>, i: int) {
        lemma_comma_list_from::<GapAutoRuleListItem>(src, ts, i, Seq::empty());
        GapAutoRuleListItem::lemma_parse_implies_peek(src, ts, i);
    }

    proof fn lemma_parse_lossless(src: Seq<u8>, ts: Seq<Cursor>, i: int) {
        lemma_comma_list_from::<GapAutoRuleListItem>(src, ts, i, Seq::empty());
        assert(pairs_cursors::<GapAutoRuleListItem>(Seq::empty()) =~= Seq::<Cursor>::empty());
        if let Ok((v, e)) = Self::spec_parse(src, ts, i) {
            let sub = ts.subrange(i, e);
            vstd::seq_lib::lemma_multiset_commutative(Seq::<Cursor>::empty(), sub);
            assert(Seq::<Cursor>::empty() + sub =~= sub);
        }
    }

    fn parse(src: &[u8], ts: &[Cursor], i: usize) -> (r: Result<(Self, usize), ParseError>) {
        let (items, e) = match parse_comma_separated::<GapAutoRuleListItem>(src, ts, i) {
            Err(e) => {
                return Err(e);
            },
            Ok(r) => r,
        };
        if count_auto_repeats(&items) != 1 {
            return Err(ParseError { kind: ErrorKind::Unexpected, at: i });
        }
        Ok((GapAutoRuleList { items }, e))
    }
}

/// A parsed gap auto rule list holds exactly one auto repeat.
pub proof fn lemma_gap_auto_rule_list_has_one_auto_repeat(src: Seq<u8>, ts: Seq<Cursor>, i: int)
    ensures
        GapAutoRuleList::spec_parse(src, ts, i) matches Ok((v, _)) ==> auto_repeat_count(v) == 1,
{
}


impl ParseSpan for GapAutoRepeatRule {
    proof fn lemma_parse_span(src: Seq<u8>, ts: Seq<Cursor>, i: int) {
        if i + 3 <= ts.len() {
            lemma_comma_list_from::<GapRule>(src, ts, i + 3, Seq::empty());
        }
        if let Ok((v, e)) = Self::spec_parse(src, ts, i) {
            lemma_cursor_span_range(ts, i);
            lemma_cursor_span_range(ts, e - 1);
            lemma_range_span_union(ts, i, i + 1, e - 1, e);
        }
    }
}

impl ParseSpan for GapAutoRuleListItem {
    proof fn lemma_parse_span(src: Seq<u8>, ts: Seq<Cursor>, i: int) {
        GapAutoRepeatRule::lemma_parse_span(src, ts, i);
        GapRuleOrRepeat::lemma_parse_span(src, ts, i);
    }
}

/// The span of a parsed gap auto rule list is exactly the source range of
/// the tokens it was read from (and the list is never empty).
pub proof fn lemma_gap_auto_rule_list_span(src: Seq<u8>, ts: Seq<Cursor>, i: int)
    requires
        0 <= i <= ts.len(),
        tokens_ordered(ts),
    ensures
        GapAutoRuleList::spec_parse(src, ts, i) matches Ok((v, e)) ==> v.len() > 0
            && auto_rule_list_span(v) == range_span(ts, i, e),
{
    lemma_comma_list_span::<GapAutoRuleListItem>(src, ts, i, i, i, Seq::empty());
}

impl SemanticEq for GapAutoRepeatRule {
    fn semantic_eq(&self, other: &Self) -> (b: bool) {
        self.name == other.name && self.count == other.count && self.comma == other.comma
            && pairs_eq(&self.rules, &other.rules) && self.close == other.close
    }
}

impl SemanticEq for GapAutoRuleListItem {
    fn semantic_eq(&self, other: &Self) -> (b: bool) {
        match (self, other) {
            (GapAutoRuleListItem::GapAutoRepeatRule(x), GapAutoRuleListItem::GapAutoRepeatRule(y)) => {
                x.semantic_eq(y)
            },
            (GapAutoRuleListItem::GapRuleOrRepeat(x), GapAutoRuleListItem::GapRuleOrRepeat(y)) => {
                x.semantic_eq(y)
            },
            _ => false,
        }
    }
}

impl SemanticEq for GapAutoRuleList {
    fn semantic_eq(&self, other: &Self) -> (b: bool) {
        pairs_eq(&self.items, &other.items)
    }
}

/// An item of a gap auto rule list read as a gap rule or repeat: an auto
/// repeat is a repeat whose count is `auto`.
pub open spec fn as_rule_or_repeat(item: GapAutoRuleListItemView) -> GapRuleOrRepeatView {
    match item {
        GapAutoRuleListItemView::GapAutoRepeatRule(r) => GapRuleOrRepeatView::GapRepeatRule(
            GapRepeatRuleView {
                name: r.name,
                count: AutoOr::Auto(r.count),
                comma: r.comma,
                rules: r.rules,
                close: r.close,
            },
        ),
        GapAutoRuleListItemView::GapRuleOrRepeat(x) => x,
    }
}

/// The items of a gap auto rule list read as those of a gap rule list.
pub open spec fn as_rule_list(items: Seq<(GapAutoRuleListItemView, Option<Cursor>)>) -> Seq<
    (GapRuleOrRepeatView, Option<Cursor>),
> {
    items.map_values(|p: (GapAutoRuleListItemView, Option<Cursor>)| (as_rule_or_repeat(p.0), p.1))
}

/// Whatever parses as an item of a gap auto rule list parses, to the same
/// position, as a gap rule or repeat.
proof fn lemma_item_is_rule_or_repeat(src: Seq<u8>, ts: Seq<Cursor>, i: int)
    requires
        0 <= i <= ts.len(),
    ensures
        GapAutoRuleListItem::spec_parse(src, ts, i) matches Ok((v, e)) ==> GapRuleOrRepeat::spec_parse(
            src,
            ts,
            i,
        ) == Ok::<(GapRuleOrRepeatView, int), ParseError>((as_rule_or_repeat(v), e)),
{
    if GapAutoRepeatRule::spec_peek(src, ts, i) {
        if let Ok((r, e)) = GapAutoRepeatRule::spec_parse(src, ts, i) {
            lemma_repeat_is_not_a_color_function(src, ts[i]);
            lemma_comma_list_agrees::<GapRule>(src, ts, i + 3, Seq::empty());
            assert(!GapRule::spec_peek(src, ts, i));
            assert(GapRepeatRule::spec_peek(src, ts, i));
            assert(AutoOr::spec_parse(src, ts, i + 1) == Ok::<(AutoOr, int), ParseError>(
                (AutoOr::Auto(ts[i + 1]), i + 2),
            ));
        }
    }
}

proof fn lemma_auto_items_are_rule_items(
    src: Seq<u8>,
    ts: Seq<Cursor>,
    i: int,
    acc: Seq<(GapAutoRuleListItemView, Option<Cursor>)>,
)
    requires
        0 <= i <= ts.len(),
    ensures
        comma_list_from::<GapAutoRuleListItem>(src, ts, i, acc) matches Ok((res, e))
            ==> comma_separated_from::<GapRuleOrRepeat>(src, ts, i, as_rule_list(acc)) == Ok::<
            (Seq<(GapRuleOrRepeatView, Option<Cursor>)>, int),
            ParseError,
        >((as_rule_list(res), e)),
    decreases ts.len() - i,
{
    GapAutoRuleListItem::lemma_parse_advances(src, ts, i);
    lemma_item_is_rule_or_repeat(src, ts, i);
    if let Ok((item, e1)) = GapAutoRuleListItem::spec_parse(src, ts, i) {
        if kind_at(ts, e1) == TokenKind::Comma {
            let acc2 = acc.push((item, Some(ts[e1])));
            lemma_comma_list_from::<GapAutoRuleListItem>(src, ts, e1 + 1, acc2);
            lemma_item_is_rule_or_repeat(src, ts, e1 + 1);
            GapRuleOrRepeat::lemma_parse_implies_peek(src, ts, e1 + 1);
            assert(as_rule_list(acc2) =~= as_rule_list(acc).push(
                (as_rule_or_repeat(item), Some(ts[e1])),
            ));
            lemma_auto_items_are_rule_items(src, ts, e1 + 1, acc2);
        } else {
            assert(as_rule_list(acc.push((item, None))) =~= as_rule_list(acc).push(
                (as_rule_or_repeat(item), None),
            ));
        }
    }
}

/// Every gap auto rule list is a gap rule list: read as one, it gives the
/// same items (an auto repeat being a repeat whose count is `auto`) and ends
/// at the same place.
pub proof fn lemma_gap_auto_rule_list_is_gap_rule_list(src: Seq<u8>, ts: Seq<Cursor>, i: int)
    requires
        0 <= i <= ts.len(),
    ensures
        GapAutoRuleList::spec_parse(src, ts, i) matches Ok((v, e)) ==> GapRuleList::spec_parse(
            src,
            ts,
            i,
        ) == Ok::<(Seq<(GapRuleOrRepeatView, Option<Cursor>)>, int), ParseError>(
            (as_rule_list(v), e),
        ),
{
    lemma_auto_items_are_rule_items(src, ts, i, Seq::empty());
    assert(as_rule_list(Seq::empty()) =~= Seq::<(GapRuleOrRepeatView, Option<Cursor>)>::empty());
}

/// A whole source text that is a gap auto rule list is also a gap rule list.
pub proof fn lemma_gap_auto_rule_list_source_is_gap_rule_list(source: &str)
    ensures
        spec_parse_source::<GapAutoRuleList>(source) matches Ok(v) ==> spec_parse_source::<
            GapRuleList,
        >(source) == Ok::<Seq<(GapRuleOrRepeatView, Option<Cursor>)>, ParseError>(as_rule_list(v)),
{
    lemma_gap_auto_rule_list_is_gap_rule_list(
        source.spec_bytes(),
        crate::token::spec_tokenize(source),
        0,
    );
}


/// A gap rule or repeat that is a repeat with the count `auto`.
pub open spec fn is_auto_repeat(r: GapRuleOrRepeatView) -> bool {
    r matches GapRuleOrRepeatView::GapRepeatRule(x) && x.count is Auto
}

/// The number of repeats with the count `auto` among the items of a gap rule list.
pub open spec fn auto_count_in_rule_list(items: Seq<(GapRuleOrRepeatView, Option<Cursor>)>) -> nat
    decreases items.len(),
{
    if items.len() == 0 {
        0
    } else {
        auto_count_in_rule_list(items.drop_last()) + if is_auto_repeat(items.last().0) {
            1nat
        } else {
            0nat
        }
    }
}

/// Whatever parses as a gap rule or repeat parses, to the same position, as
/// an item of a gap auto rule list, which is an auto repeat exactly when the
/// repeat's count is `auto`.
proof fn lemma_rule_or_repeat_is_item(src: Seq<u8>, ts: Seq<Cursor>, i: int)
    requires
        0 <= i <= ts.len(),
    ensures
        GapRuleOrRepeat::spec_parse(src, ts, i) matches Ok((r, e)) ==> (GapAutoRuleListItem::spec_parse(
            src,
            ts,
            i,
        ) matches Ok((a, e2)) && e2 == e && as_rule_or_repeat(a) == r && (a is GapAutoRepeatRule
            <==> is_auto_repeat(r))),
{
    if GapAutoRepeatRule::spec_peek(src, ts, i) {
        lemma_repeat_is_not_a_color_function(src, ts[i]);
        assert(!GapRule::spec_peek(src, ts, i));
        assert(GapRepeatRule::spec_peek(src, ts, i));
        assert(AutoOr::spec_parse(src, ts, i + 1) == Ok::<(AutoOr, int), ParseError>(
            (AutoOr::Auto(ts[i + 1]), i + 2),
        ));
        lemma_comma_separated_agrees::<GapRule>(src, ts, i + 3, Seq::empty());
    } else if GapRule::spec_peek(src, ts, i) {
    } else if GapRepeatRule::spec_peek(src, ts, i) {
        if let Ok((r, e)) = GapRuleOrRepeat::spec_parse(src, ts, i) {
            if is_auto_repeat(r) {
                assert(ident_is(src, ts[i + 1], "auto"));
                assert(false);
            }
        }
    }
}

proof fn lemma_rule_items_are_auto_items(
    src: Seq<u8>,
    ts: Seq<Cursor>,
    i: int,
    acc: Seq<(GapAutoRuleListItemView, Option<Cursor>)>,
)
    requires
        0 <= i <= ts.len(),
        auto_repeat_count(acc) == auto_count_in_rule_list(as_rule_list(acc)),
    ensures
        comma_separated_from::<GapRuleOrRepeat>(src, ts, i, as_rule_list(acc)) matches Ok((res, e))
            ==> kind_at(ts, e) != TokenKind::Comma ==> (comma_list_from::<GapAutoRuleListItem>(
            src,
            ts,
            i,
            acc,
        ) matches Ok((res2, e2)) && e2 == e && as_rule_list(res2) == res && auto_repeat_count(res2)
            == auto_count_in_rule_list(res)),
    decreases ts.len() - i,
{
    GapRuleOrRepeat::lemma_parse_advances(src, ts, i);
    lemma_rule_or_repeat_is_item(src, ts, i);
    if let Ok((r, e1)) = GapRuleOrRepeat::spec_parse(src, ts, i) {
        let a = GapAutoRuleListItem::spec_parse(src, ts, i)->Ok_0.0;
        let c = if kind_at(ts, e1) == TokenKind::Comma {
            Some(ts[e1])
        } else {
            None
        };
        let acc2 = acc.push((a, c));
        assert(acc2.drop_last() =~= acc);
        assert(as_rule_list(acc2) =~= as_rule_list(acc).push((r, c)));
        assert(as_rule_list(acc2).drop_last() =~= as_rule_list(acc));
        assert(auto_repeat_count(acc2) == auto_count_in_rule_list(as_rule_list(acc2)));
        if kind_at(ts, e1) == TokenKind::Comma && GapRuleOrRepeat::spec_peek(src, ts, e1 + 1) {
            lemma_rule_items_are_auto_items(src, ts, e1 + 1, acc2);
        }
    }
}

/// A gap rule list with exactly one repeat whose count is `auto`, and no
/// comma after it, is also a gap auto rule list: read as one, it gives the
/// same items (an auto repeat holding all the rules that repeat holds) and
/// ends at the same place. With `lemma_gap_auto_rule_list_is_gap_rule_list`,
/// the gap auto rule lists are exactly these gap rule lists.
pub proof fn lemma_gap_rule_list_with_one_auto_repeat_is_gap_auto_rule_list(
    src: Seq<u8>,
    ts: Seq<Cursor>,
    i: int,
)
    requires
        0 <= i <= ts.len(),
    ensures
        GapRuleList::spec_parse(src, ts, i) matches Ok((items, e)) ==> (kind_at(ts, e)
            != TokenKind::Comma && auto_count_in_rule_list(items) == 1 ==> (GapAutoRuleList::spec_parse(
            src,
            ts,
            i,
        ) matches Ok((auto_items, e2)) && e2 == e && as_rule_list(auto_items) == items)),
{
    let empty = Seq::<(GapAutoRuleListItemView, Option<Cursor>)>::empty();
    assert(as_rule_list(empty) =~= Seq::<(GapRuleOrRepeatView, Option<Cursor>)>::empty());
    lemma_rule_items_are_auto_items(src, ts, i, empty);
}

} // verus!

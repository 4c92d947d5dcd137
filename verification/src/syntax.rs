//! The parsing framework: errors, the `Peek`, `Parse`, `ToCursors` and
//! `ToSpan` traits that every node implements, and the two comma-separated
//! list forms of the gap grammars.
//!
//! A parser reads the significant tokens `ts` of a source text `src` from a
//! position `i` (an index into `ts`; positions at or past the end read as the
//! end of input) and either fails with an error, or produces a node and the
//! position just past the tokens it consumed. Each node type states its
//! grammar as a spec function `spec_parse`, and its executable `parse` is
//! proved to compute exactly that.
use crate::token::{
    Cursor, Span, TokenKind, cursor_span, dummy_span, lemma_cursor_span_range, lemma_range_span_union,
    lemma_span_union_laws, lemma_tokenize_ordered, within_lexer_limits, range_span, span_union, spec_tokenize, tokenize,
    tokens_ordered,
};
use vstd::string::StringSliceAdditionalSpecFns;
use vstd::prelude::*;

verus! {

/// What went wrong.
#[derive(Clone, Copy, Debug, PartialEq, Eq, Structural)]
pub enum ErrorKind {
    /// A token that the grammar does not allow at this point.
    Unexpected,
    /// An identifier or function name other than the one the grammar needs.
    UnexpectedIdent,
    /// Tokens are left over after a complete value.
    ExpectedEnd,
}

/// A parse error: its kind, and the position (index into the significant
/// tokens) where it was found; the number of tokens stands for the end of
/// the input.
#[derive(Clone, Copy, Debug, PartialEq, Eq, Structural)]
pub struct ParseError {
    pub kind: ErrorKind,
    pub at: usize,
}

pub open spec fn error_at(kind: ErrorKind, i: int) -> ParseError {
    ParseError { kind, at: i as usize }
}

/// The kind of the token at position `i`; positions past the end hold the
/// end of input.
pub open spec fn kind_at(ts: Seq<Cursor>, i: int) -> TokenKind {
    if 0 <= i < ts.len() {
        ts[i].kind
    } else {
        TokenKind::Eof
    }
}

/// The kind of the token at position `i`.
pub fn kind_at_exec(ts: &[Cursor], i: usize) -> (k: TokenKind)
    ensures
        k == kind_at(ts@, i as int),
{
    if i < ts.len() {
        ts[i].kind
    } else {
        TokenKind::Eof
    }
}

/// An executable parse result agrees with the spec's result.
pub open spec fn parse_agrees<T: View>(
    r: Result<(T, usize), ParseError>,
    s: Result<(T::V, int), ParseError>,
) -> bool {
    match r {
        Ok((v, e)) => s == Ok::<(T::V, int), ParseError>((v@, e as int)),
        Err(x) => s == Err::<(T::V, int), ParseError>(x),
    }
}

/// A look-ahead test: could a node of this type start at position `i`?
pub trait Peek {
    spec fn spec_peek(src: Seq<u8>, ts: Seq<Cursor>, i: int) -> bool;

    fn peek(src: &[u8], ts: &[Cursor], i: usize) -> (b: bool)
        requires
            i <= ts@.len(),
        ensures
            b == Self::spec_peek(src@, ts@, i as int),
    ;
}

/// Writing a node back out as the cursors it was read from.
pub trait ToCursors: View {
    spec fn spec_cursors(v: Self::V) -> Seq<Cursor>;

    /// Appends the node's cursors to `s`.
    fn to_cursors(&self, s: &mut Vec<Cursor>)
        ensures
            final(s)@ == old(s)@ + Self::spec_cursors(self@),
    ;
}

/// The source span of a node.
pub trait ToSpan: View {
    spec fn spec_span(v: Self::V) -> Span;

    fn to_span(&self) -> (s: Span)
        ensures
            s == Self::spec_span(self@),
    ;
}

/// Parsing a node from position `i`.
pub trait Parse: Peek + ToCursors + Sized {
    spec fn spec_parse(src: Seq<u8>, ts: Seq<Cursor>, i: int) -> Result<(Self::V, int), ParseError>;

    /// A successful parse consumes at least one token, and no more than there are.
    proof fn lemma_parse_advances(src: Seq<u8>, ts: Seq<Cursor>, i: int)
        requires
            0 <= i <= ts.len(),
        ensures
            Self::spec_parse(src, ts, i) matches Ok((_, e)) ==> i < e <= ts.len(),
    ;

    /// Whatever parses also peeks: `peek` never rules out a node that `parse` would accept.
    proof fn lemma_parse_implies_peek(src: Seq<u8>, ts: Seq<Cursor>, i: int)
        requires
            0 <= i <= ts.len(),
        ensures
            Self::spec_parse(src, ts, i) is Ok ==> Self::spec_peek(src, ts, i),
    ;

    /// Nothing is lost or invented: a parsed node writes back out exactly the
    /// tokens it consumed (as a multiset; the order of a `||` group follows the
    /// grammar, not the source).
    proof fn lemma_parse_lossless(src: Seq<u8>, ts: Seq<Cursor>, i: int)
        requires
            0 <= i <= ts.len(),
        ensures
            Self::spec_parse(src, ts, i) matches Ok((v, e)) ==> Self::spec_cursors(v).to_multiset()
                =~= ts.subrange(i, e).to_multiset(),
    ;

    fn parse(src: &[u8], ts: &[Cursor], i: usize) -> (r: Result<(Self, usize), ParseError>)
        requires
            i <= ts@.len(),
        ensures
            parse_agrees(r, Self::spec_parse(src@, ts@, i as int)),
    ;
}

/// The span of a parsed node is exactly the source range of the tokens it
/// was read from, from the start of the first to the end of the last.
pub trait ParseSpan: Parse + ToSpan {
    proof fn lemma_parse_span(src: Seq<u8>, ts: Seq<Cursor>, i: int)
        requires
            0 <= i <= ts.len(),
            tokens_ordered(ts),
        ensures
            Self::spec_parse(src, ts, i) matches Ok((v, e)) ==> <Self as ToSpan>::spec_span(v)
                == range_span(ts, i, e),
    ;
}

/// Equality of two nodes: the same tokens in the same structure.
pub trait SemanticEq: View + Sized {
    fn semantic_eq(&self, other: &Self) -> (b: bool)
        ensures
            b == (self@ == other@),
    ;
}

/// Equality of two optional cursors.
pub fn opt_cursor_eq(a: Option<Cursor>, b: Option<Cursor>) -> (r: bool)
    ensures
        r == (a == b),
{
    match (a, b) {
        (Some(x), Some(y)) => x == y,
        (None, None) => true,
        _ => false,
    }
}

/// Equality of two runs of cursors.
pub fn cursors_eq(a: &Vec<Cursor>, b: &Vec<Cursor>) -> (r: bool)
    ensures
        r == (a@ == b@),
{
    if a.len() != b.len() {
        return false;
    }
    let mut k: usize = 0;
    while k < a.len()
        invariant
            a@.len() == b@.len(),
            k <= a@.len(),
            forall|j: int| 0 <= j < k ==> a@[j] == b@[j],
        decreases a@.len() - k,
    {
        if a[k] != b[k] {
            return false;
        }
        k = k + 1;
    }
    assert(a@ =~= b@);
    true
}

/// Equality of two lists of items with their commas.
pub fn pairs_eq<T: SemanticEq>(a: &Vec<(T, Option<Cursor>)>, b: &Vec<(T, Option<Cursor>)>) -> (r:
    bool)
    ensures
        r == (pairs_view(a@) == pairs_view(b@)),
{
    if a.len() != b.len() {
        assert(pairs_view(a@).len() != pairs_view(b@).len());
        return false;
    }
    let mut k: usize = 0;
    while k < a.len()
        invariant
            a@.len() == b@.len(),
            k <= a@.len(),
            forall|j: int| 0 <= j < k ==> #[trigger] pairs_view(a@)[j] == pairs_view(b@)[j],
        decreases a@.len() - k,
    {
        if !a[k].0.semantic_eq(&b[k].0) || !opt_cursor_eq(a[k].1, b[k].1) {
            assert(pairs_view(a@)[k as int] != pairs_view(b@)[k as int]);
            return false;
        }
        k = k + 1;
    }
    assert(pairs_view(a@) =~= pairs_view(b@));
    true
}

impl<T: SemanticEq> SemanticEq for CommaSeparated<T> {
    fn semantic_eq(&self, other: &Self) -> (b: bool) {
        pairs_eq(&self.items, &other.items)
    }
}

/// The view of a list of items, each with the comma that follows it.
pub open spec fn pairs_view<T: View>(s: Seq<(T, Option<Cursor>)>) -> Seq<(T::V, Option<Cursor>)> {
    s.map_values(|p: (T, Option<Cursor>)| (p.0@, p.1))
}

pub proof fn lemma_pairs_view_push<T: View>(s: Seq<(T, Option<Cursor>)>, x: (T, Option<Cursor>))
    ensures
        pairs_view(s.push(x)) =~= pairs_view(s).push((x.0@, x.1)),
{
}

/// The cursors of an optional comma.
pub open spec fn comma_cursors(c: Option<Cursor>) -> Seq<Cursor> {
    match c {
        Some(c) => seq![c],
        None => Seq::empty(),
    }
}

/// The cursors of a list of items with their commas, in order.
pub open spec fn pairs_cursors<T: ToCursors>(s: Seq<(T::V, Option<Cursor>)>) -> Seq<Cursor>
    decreases s.len(),
{
    if s.len() == 0 {
        Seq::empty()
    } else {
        pairs_cursors::<T>(s.drop_last()) + T::spec_cursors(s.last().0) + comma_cursors(s.last().1)
    }
}

/// Appends the cursors of `items` (each item, then its comma) to `s`.
pub fn pairs_to_cursors<T: ToCursors>(items: &Vec<(T, Option<Cursor>)>, s: &mut Vec<Cursor>)
    ensures
        final(s)@ == old(s)@ + pairs_cursors::<T>(pairs_view(items@)),
{
    let ghost start = s@;
    let mut k: usize = 0;
    while k < items.len()
        invariant
            k <= items@.len(),
            s@ == start + pairs_cursors::<T>(pairs_view(items@.take(k as int))),
        decreases items@.len() - k,
    {
        let ghost before = s@;
        items[k].0.to_cursors(s);
        if let Some(c) = items[k].1 {
            s.push(c);
        }
        proof {
            let t = items@.take(k + 1);
            assert(t.drop_last() =~= items@.take(k as int));
            assert(pairs_view(t).drop_last() =~= pairs_view(items@.take(k as int)));
            assert(pairs_view(t).last() == (items@[k as int].0@, items@[k as int].1));
        }
        k = k + 1;
    }
    assert(items@.take(k as int) =~= items@);
}

/// The span of an item together with its comma.
pub open spec fn pair_span<T: ToSpan>(p: (T::V, Option<Cursor>)) -> Span {
    span_union(
        T::spec_span(p.0),
        match p.1 {
            Some(c) => cursor_span(c),
            None => dummy_span(),
        },
    )
}

pub fn pair_to_span<T: ToSpan>(p: &(T, Option<Cursor>)) -> (s: Span)
    ensures
        s == pair_span::<T>((p.0@, p.1)),
{
    let first = p.0.to_span();
    let comma = match p.1 {
        Some(c) => Span::of(c),
        None => Span::dummy(),
    };
    first.union(comma)
}

/// `<T>#` as `css_parse` reads it (`CommaSeparated`): an item; then, while
/// a comma follows and another item can start after it, the comma and that
/// item. A comma that no item follows is left unconsumed.
pub struct CommaSeparated<T> {
    pub items: Vec<(T, Option<Cursor>)>,
}

impl<T: View> View for CommaSeparated<T> {
    type V = Seq<(T::V, Option<Cursor>)>;

    open spec fn view(&self) -> Seq<(T::V, Option<Cursor>)> {
        pairs_view(self.items@)
    }
}

/// The items from position `i` on, after those already read (`acc`).
pub open spec fn comma_separated_from<T: Parse>(
    src: Seq<u8>,
    ts: Seq<Cursor>,
    i: int,
    acc: Seq<(T::V, Option<Cursor>)>,
) -> Result<(Seq<(T::V, Option<Cursor>)>, int), ParseError>
    decreases ts.len() - i,
    when 0 <= i <= ts.len()
    via comma_separated_from_decreases::<T>
{
    match T::spec_parse(src, ts, i) {
        Err(e) => Err(e),
        Ok((item, e)) => {
            if kind_at(ts, e) == TokenKind::Comma && T::spec_peek(src, ts, e + 1) {
                comma_separated_from::<T>(src, ts, e + 1, acc.push((item, Some(ts[e]))))
            } else {
                Ok((acc.push((item, None)), e))
            }
        },
    }
}

#[via_fn]
proof fn comma_separated_from_decreases<T: Parse>(
    src: Seq<u8>,
    ts: Seq<Cursor>,
    i: int,
    acc: Seq<(T::V, Option<Cursor>)>,
) {
    T::lemma_parse_advances(src, ts, i);
}


/// Splitting a range of tokens in two splits its multiset in two.
pub proof fn lemma_subrange_multiset_split(ts: Seq<Cursor>, a: int, b: int, c: int)
    requires
        0 <= a <= b <= c <= ts.len(),
    ensures
        ts.subrange(a, c).to_multiset() =~= ts.subrange(a, b).to_multiset().add(
            ts.subrange(b, c).to_multiset(),
        ),
{
    assert(ts.subrange(a, c) =~= ts.subrange(a, b) + ts.subrange(b, c));
    vstd::seq_lib::lemma_multiset_commutative(ts.subrange(a, b), ts.subrange(b, c));
}

/// The cursors of a list grow by the cursors of each item pushed onto it.
pub proof fn lemma_pairs_cursors_push<T: ToCursors>(
    s: Seq<(T::V, Option<Cursor>)>,
    x: (T::V, Option<Cursor>),
)
    ensures
        pairs_cursors::<T>(s.push(x)) == pairs_cursors::<T>(s) + T::spec_cursors(x.0)
            + comma_cursors(x.1),
{
    assert(s.push(x).drop_last() =~= s);
}

impl<T: Peek> Peek for CommaSeparated<T> {
    open spec fn spec_peek(src: Seq<u8>, ts: Seq<Cursor>, i: int) -> bool {
        T::spec_peek(src, ts, i)
    }

    fn peek(src: &[u8], ts: &[Cursor], i: usize) -> (b: bool) {
        T::peek(src, ts, i)
    }
}

impl<T: ToCursors> ToCursors for CommaSeparated<T> {
    open spec fn spec_cursors(v: Seq<(T::V, Option<Cursor>)>) -> Seq<Cursor> {
        pairs_cursors::<T>(v)
    }

    fn to_cursors(&self, s: &mut Vec<Cursor>) {
        pairs_to_cursors(&self.items, s);
    }
}

impl<T: ToSpan> ToSpan for CommaSeparated<T> {
    /// The first item's span joined with the last item's (with their commas).
    open spec fn spec_span(v: Seq<(T::V, Option<Cursor>)>) -> Span {
        if v.len() == 0 {
            dummy_span()
        } else {
            span_union(pair_span::<T>(v[0]), pair_span::<T>(v.last()))
        }
    }

    fn to_span(&self) -> (s: Span) {
        let n = self.items.len();
        if n == 0 {
            Span::dummy()
        } else {
            let first = pair_to_span(&self.items[0]);
            let last = pair_to_span(&self.items[n - 1]);
            first.union(last)
        }
    }
}

/// Facts about `comma_separated_from` that the laws of `CommaSeparated` rest on.
proof fn lemma_comma_separated_from<T: Parse>(
    src: Seq<u8>,
    ts: Seq<Cursor>,
    i: int,
    acc: Seq<(T::V, Option<Cursor>)>,
)
    requires
        0 <= i <= ts.len(),
    ensures
        comma_separated_from::<T>(src, ts, i, acc) matches Ok((res, e)) ==> {
            &&& i < e <= ts.len()
            &&& pairs_cursors::<T>(res).to_multiset() =~= pairs_cursors::<T>(acc).to_multiset().add(
                ts.subrange(i, e).to_multiset(),
            )
            &&& res.len() > acc.len()
        },
    decreases ts.len() - i,
{
    broadcast use vstd::seq_lib::lemma_multiset_commutative;

    T::lemma_parse_advances(src, ts, i);
    T::lemma_parse_lossless(src, ts, i);
    if let Ok((item, e1)) = T::spec_parse(src, ts, i) {
        if kind_at(ts, e1) == TokenKind::Comma && T::spec_peek(src, ts, e1 + 1) {
            let acc2 = acc.push((item, Some(ts[e1])));
            lemma_comma_separated_from::<T>(src, ts, e1 + 1, acc2);
            lemma_pairs_cursors_push::<T>(acc, (item, Some(ts[e1])));
            if let Ok((res, e)) = comma_separated_from::<T>(src, ts, e1 + 1, acc2) {
                lemma_subrange_multiset_split(ts, i, e1, e);
                lemma_subrange_multiset_split(ts, e1, e1 + 1, e);
                assert(ts.subrange(e1, e1 + 1) =~= comma_cursors(Some(ts[e1])));
            }
        } else {
            lemma_pairs_cursors_push::<T>(acc, (item, None));
            assert(comma_cursors(None) =~= Seq::<Cursor>::empty());
        }
    }
}

impl<T: Parse> Parse for CommaSeparated<T> {
    open spec fn spec_parse(src: Seq<u8>, ts: Seq<Cursor>, i: int) -> Result<
        (Seq<(T::V, Option<Cursor>)>, int),
        ParseError,
    > {
        comma_separated_from::<T>(src, ts, i, Seq::empty())
    }

    proof fn lemma_parse_advances(src: Seq<u8>, ts: Seq<Cursor>, i: int) {
        lemma_comma_separated_from::<T>(src, ts, i, Seq::empty());
    }

    proof fn lemma_parse_implies_peek(src: Seq<u8>, ts: Seq<Cursor>, i: int) {
        T::lemma_parse_implies_peek(src, ts, i);
    }

    proof fn lemma_parse_lossless(src: Seq<u8>, ts: Seq<Cursor>, i: int) {
        lemma_comma_separated_from::<T>(src, ts, i, Seq::empty());
        assert(pairs_cursors::<T>(Seq::empty()) =~= Seq::<Cursor>::empty());
        if let Ok((v, e)) = Self::spec_parse(src, ts, i) {
            let sub = ts.subrange(i, e);
            vstd::seq_lib::lemma_multiset_commutative(Seq::<Cursor>::empty(), sub);
            assert(Seq::<Cursor>::empty() + sub =~= sub);
        }
    }

    fn parse(src: &[u8], ts: &[Cursor], i: usize) -> (r: Result<(Self, usize), ParseError>) {
        let mut items: Vec<(T, Option<Cursor>)> = Vec::new();
        let mut pos = i;
        assert(pairs_view(items@) =~= Seq::<(T::V, Option<Cursor>)>::empty());
        loop
            invariant
                i <= pos <= ts@.len(),
                comma_separated_from::<T>(src@, ts@, pos as int, pairs_view(items@))
                    == comma_separated_from::<T>(src@, ts@, i as int, Seq::empty()),
            decreases ts@.len() - pos,
        {
            match T::parse(src, ts, pos) {
                Err(e) => {
                    return Err(e);
                },
                Ok((item, e)) => {
                    proof {
                        T::lemma_parse_advances(src@, ts@, pos as int);
                    }
                    let ghost iv = item@;
                    if kind_at_exec(ts, e) == TokenKind::Comma && T::peek(src, ts, e + 1) {
                        let comma = ts[e];
                        proof {
                            lemma_pairs_view_push(items@, (item, Some(comma)));
                        }
                        items.push((item, Some(comma)));
                        pos = e + 1;
                    } else {
                        proof {
                            lemma_pairs_view_push(items@, (item, None));
                        }
                        items.push((item, None));
                        return Ok((CommaSeparated { items }, e));
                    }
                },
            }
        }
    }
}


/// The span of `comma_separated_from`'s result runs from `i0`, where the
/// first item (already in `acc`, spanning `[i0, f0)`, or about to be read at
/// `i`) starts, to the end of what was read.
proof fn lemma_comma_separated_span<T: ParseSpan>(
    src: Seq<u8>,
    ts: Seq<Cursor>,
    i0: int,
    f0: int,
    i: int,
    acc: Seq<(T::V, Option<Cursor>)>,
)
    requires
        tokens_ordered(ts),
        0 <= i0 <= i <= ts.len(),
        acc.len() == 0 ==> i0 == i,
        acc.len() > 0 ==> i0 < f0 <= i && pair_span::<T>(acc[0]) == range_span(ts, i0, f0),
    ensures
        comma_separated_from::<T>(src, ts, i, acc) matches Ok((res, e)) ==> res.len() > 0
            && CommaSeparated::<T>::spec_span(res) == range_span(ts, i0, e),
    decreases ts.len() - i,
{
    T::lemma_parse_advances(src, ts, i);
    T::lemma_parse_span(src, ts, i);
    if let Ok((item, e1)) = T::spec_parse(src, ts, i) {
        lemma_span_union_laws(range_span(ts, i, e1), dummy_span(), dummy_span());
        if kind_at(ts, e1) == TokenKind::Comma && T::spec_peek(src, ts, e1 + 1) {
            let p = (item, Some(ts[e1]));
            lemma_cursor_span_range(ts, e1);
            lemma_range_span_union(ts, i, e1, e1, e1 + 1);
            assert(pair_span::<T>(p) == range_span(ts, i, e1 + 1));
            let acc2 = acc.push(p);
            if acc.len() == 0 {
                lemma_comma_separated_span::<T>(src, ts, i, e1 + 1, e1 + 1, acc2);
            } else {
                assert(acc2[0] == acc[0]);
                lemma_comma_separated_span::<T>(src, ts, i0, f0, e1 + 1, acc2);
            }
        } else {
            let p = (item, None::<Cursor>);
            assert(pair_span::<T>(p) == range_span(ts, i, e1));
            let res = acc.push(p);
            if acc.len() == 0 {
                lemma_span_union_laws(range_span(ts, i, e1), dummy_span(), dummy_span());
                assert(res[0] == p);
            } else {
                lemma_range_span_union(ts, i0, f0, i, e1);
                assert(res[0] == acc[0]);
            }
        }
    }
}

impl<T: ParseSpan> ParseSpan for CommaSeparated<T> {
    proof fn lemma_parse_span(src: Seq<u8>, ts: Seq<Cursor>, i: int) {
        lemma_comma_separated_span::<T>(src, ts, i, i, i, Seq::empty());
    }
}

/// `<T>#` as the gap auto rule list reads it: an item, and after every
/// comma another item, which must then be there (a trailing comma is an
/// error). The items from position `i` on, after those already read (`acc`).
pub open spec fn comma_list_from<T: Parse>(
    src: Seq<u8>,
    ts: Seq<Cursor>,
    i: int,
    acc: Seq<(T::V, Option<Cursor>)>,
) -> Result<(Seq<(T::V, Option<Cursor>)>, int), ParseError>
    decreases ts.len() - i,
    when 0 <= i <= ts.len()
    via comma_list_from_decreases::<T>
{
    match T::spec_parse(src, ts, i) {
        Err(e) => Err(e),
        Ok((item, e)) => {
            if kind_at(ts, e) == TokenKind::Comma {
                comma_list_from::<T>(src, ts, e + 1, acc.push((item, Some(ts[e]))))
            } else {
                Ok((acc.push((item, None)), e))
            }
        },
    }
}

#[via_fn]
proof fn comma_list_from_decreases<T: Parse>(
    src: Seq<u8>,
    ts: Seq<Cursor>,
    i: int,
    acc: Seq<(T::V, Option<Cursor>)>,
) {
    T::lemma_parse_advances(src, ts, i);
}

/// The comma-separated items (each followed by its comma, the last by none)
/// from position `i`.
pub open spec fn spec_parse_comma_separated<T: Parse>(
    src: Seq<u8>,
    ts: Seq<Cursor>,
    i: int,
) -> Result<(Seq<(T::V, Option<Cursor>)>, int), ParseError> {
    comma_list_from::<T>(src, ts, i, Seq::empty())
}

/// Facts about `comma_list_from`: it advances, it loses nothing, it reads at
/// least one item, and the first item parsed at `i`.
pub proof fn lemma_comma_list_from<T: Parse>(
    src: Seq<u8>,
    ts: Seq<Cursor>,
    i: int,
    acc: Seq<(T::V, Option<Cursor>)>,
)
    requires
        0 <= i <= ts.len(),
    ensures
        comma_list_from::<T>(src, ts, i, acc) matches Ok((res, e)) ==> {
            &&& i < e <= ts.len()
            &&& pairs_cursors::<T>(res).to_multiset() =~= pairs_cursors::<T>(acc).to_multiset().add(
                ts.subrange(i, e).to_multiset(),
            )
            &&& res.len() > acc.len()
            &&& res.subrange(0, acc.len() as int) == acc
            &&& T::spec_parse(src, ts, i) is Ok
        },
    decreases ts.len() - i,
{
    broadcast use vstd::seq_lib::lemma_multiset_commutative;

    T::lemma_parse_advances(src, ts, i);
    T::lemma_parse_lossless(src, ts, i);
    if let Ok((item, e1)) = T::spec_parse(src, ts, i) {
        if kind_at(ts, e1) == TokenKind::Comma {
            let acc2 = acc.push((item, Some(ts[e1])));
            lemma_comma_list_from::<T>(src, ts, e1 + 1, acc2);
            lemma_pairs_cursors_push::<T>(acc, (item, Some(ts[e1])));
            if let Ok((res, e)) = comma_list_from::<T>(src, ts, e1 + 1, acc2) {
                lemma_subrange_multiset_split(ts, i, e1, e);
                lemma_subrange_multiset_split(ts, e1, e1 + 1, e);
                assert(ts.subrange(e1, e1 + 1) =~= comma_cursors(Some(ts[e1])));
                assert(res.subrange(0, acc.len() as int) =~= res.subrange(0, acc2.len() as int).subrange(
                    0,
                    acc.len() as int,
                ));
                assert(acc2.subrange(0, acc.len() as int) =~= acc);
            }
        } else {
            lemma_pairs_cursors_push::<T>(acc, (item, None));
            assert(comma_cursors(None) =~= Seq::<Cursor>::empty());
            assert(acc.push((item, None)).subrange(0, acc.len() as int) =~= acc);
        }
    }
}

/// The result of `comma_list_from` ends with an item without a comma, and
/// its first item's span joined with its last item's runs from `i0` (where
/// the first item starts) to the end of what was read.
pub proof fn lemma_comma_list_span<T: ParseSpan>(
    src: Seq<u8>,
    ts: Seq<Cursor>,
    i0: int,
    f0: int,
    i: int,
    acc: Seq<(T::V, Option<Cursor>)>,
)
    requires
        tokens_ordered(ts),
        0 <= i0 <= i <= ts.len(),
        acc.len() == 0 ==> i0 == i,
        acc.len() > 0 ==> i0 < f0 <= i && <T as ToSpan>::spec_span(acc[0].0) == range_span(ts, i0, f0),
    ensures
        comma_list_from::<T>(src, ts, i, acc) matches Ok((res, e)) ==> {
            &&& res.len() > 0
            &&& res.last().1 is None
            &&& span_union(<T as ToSpan>::spec_span(res[0].0), <T as ToSpan>::spec_span(res.last().0))
                == range_span(ts, i0, e)
        },
    decreases ts.len() - i,
{
    T::lemma_parse_advances(src, ts, i);
    T::lemma_parse_span(src, ts, i);
    if let Ok((item, e1)) = T::spec_parse(src, ts, i) {
        if kind_at(ts, e1) == TokenKind::Comma {
            let acc2 = acc.push((item, Some(ts[e1])));
            if acc.len() == 0 {
                lemma_comma_list_span::<T>(src, ts, i, e1, e1 + 1, acc2);
            } else {
                assert(acc2[0] == acc[0]);
                lemma_comma_list_span::<T>(src, ts, i0, f0, e1 + 1, acc2);
            }
        } else {
            let res = acc.push((item, None));
            if acc.len() == 0 {
                lemma_span_union_laws(range_span(ts, i, e1), dummy_span(), dummy_span());
                assert(res[0] == (item, None::<Cursor>));
            } else {
                lemma_range_span_union(ts, i0, f0, i, e1);
                assert(res[0] == acc[0]);
            }
        }
    }
}

/// Where the stricter list form succeeds (every comma followed by an item),
/// `CommaSeparated` reads exactly the same items: each item after a comma
/// parsed, so it peeks.
pub proof fn lemma_comma_list_agrees<T: Parse>(
    src: Seq<u8>,
    ts: Seq<Cursor>,
    i: int,
    acc: Seq<(T::V, Option<Cursor>)>,
)
    requires
        0 <= i <= ts.len(),
    ensures
        comma_list_from::<T>(src, ts, i, acc) is Ok ==> comma_separated_from::<T>(src, ts, i, acc)
            == comma_list_from::<T>(src, ts, i, acc),
    decreases ts.len() - i,
{
    T::lemma_parse_advances(src, ts, i);
    if let Ok((item, e1)) = T::spec_parse(src, ts, i) {
        if kind_at(ts, e1) == TokenKind::Comma {
            let acc2 = acc.push((item, Some(ts[e1])));
            lemma_comma_list_from::<T>(src, ts, e1 + 1, acc2);
            T::lemma_parse_implies_peek(src, ts, e1 + 1);
            lemma_comma_list_agrees::<T>(src, ts, e1 + 1, acc2);
        }
    }
}

/// Where `CommaSeparated` reads a list that no comma follows, the stricter
/// list form reads exactly the same items: every comma it met was followed
/// by an item.
pub proof fn lemma_comma_separated_agrees<T: Parse>(
    src: Seq<u8>,
    ts: Seq<Cursor>,
    i: int,
    acc: Seq<(T::V, Option<Cursor>)>,
)
    requires
        0 <= i <= ts.len(),
    ensures
        (comma_separated_from::<T>(src, ts, i, acc) matches Ok((_, e)) && kind_at(ts, e)
            != TokenKind::Comma) ==> comma_list_from::<T>(src, ts, i, acc) == comma_separated_from::<T>(
            src,
            ts,
            i,
            acc,
        ),
    decreases ts.len() - i,
{
    T::lemma_parse_advances(src, ts, i);
    if let Ok((item, e1)) = T::spec_parse(src, ts, i) {
        if kind_at(ts, e1) == TokenKind::Comma && T::spec_peek(src, ts, e1 + 1) {
            lemma_comma_separated_agrees::<T>(src, ts, e1 + 1, acc.push((item, Some(ts[e1]))));
        }
    }
}

/// Parses comma-separated items from position `i`: after each item, a comma
/// means another item must follow; no comma ends the list.
pub fn parse_comma_separated<T: Parse>(src: &[u8], ts: &[Cursor], i: usize) -> (r: Result<
    (Vec<(T, Option<Cursor>)>, usize),
    ParseError,
>)
    requires
        i <= ts@.len(),
    ensures
        match r {
            Ok((items, e)) => spec_parse_comma_separated::<T>(src@, ts@, i as int) == Ok::<
                (Seq<(T::V, Option<Cursor>)>, int),
                ParseError,
            >((pairs_view(items@), e as int)),
            Err(x) => spec_parse_comma_separated::<T>(src@, ts@, i as int) == Err::<
                (Seq<(T::V, Option<Cursor>)>, int),
                ParseError,
            >(x),
        },
{
    let mut items: Vec<(T, Option<Cursor>)> = Vec::new();
    let mut pos = i;
    assert(pairs_view(items@) =~= Seq::<(T::V, Option<Cursor>)>::empty());
    loop
        invariant
            i <= pos <= ts@.len(),
            comma_list_from::<T>(src@, ts@, pos as int, pairs_view(items@)) == comma_list_from::<T>(
                src@,
                ts@,
                i as int,
                Seq::empty(),
            ),
        decreases ts@.len() - pos,
    {
        match T::parse(src, ts, pos) {
            Err(e) => {
                return Err(e);
            },
            Ok((item, e)) => {
                proof {
                    T::lemma_parse_advances(src@, ts@, pos as int);
                }
                if kind_at_exec(ts, e) == TokenKind::Comma {
                    let comma = ts[e];
                    proof {
                        lemma_pairs_view_push(items@, (item, Some(comma)));
                    }
                    items.push((item, Some(comma)));
                    pos = e + 1;
                } else {
                    proof {
                        lemma_pairs_view_push(items@, (item, None));
                    }
                    items.push((item, None));
                    return Ok((items, e));
                }
            },
        }
    }
}


/// `T` writes back exactly the tokens it was read from, in the order it read
/// them, wherever in `ts` it parses.
pub open spec fn writes_back_in_order<T: Parse>(src: Seq<u8>, ts: Seq<Cursor>) -> bool {
    forall|j: int|
        0 <= j <= ts.len() ==> (#[trigger] T::spec_parse(src, ts, j) matches Ok((v, e))
            ==> T::spec_cursors(v) == ts.subrange(j, e))
}

/// Every item of a list but the last is followed by a comma token, and the
/// last by none.
pub open spec fn commas_between<V>(items: Seq<(V, Option<Cursor>)>) -> bool {
    &&& items.len() > 0
    &&& items.last().1 is None
    &&& forall|k: int|
        0 <= k < items.len() - 1 ==> ((#[trigger] items[k]).1 matches Some(c) && c.kind == TokenKind::Comma)
}

/// The number of commas in a list.
pub open spec fn comma_count<V>(items: Seq<(V, Option<Cursor>)>) -> nat
    decreases items.len(),
{
    if items.len() == 0 {
        0
    } else {
        comma_count(items.drop_last()) + if items.last().1 is Some {
            1nat
        } else {
            0nat
        }
    }
}

/// Items read so far, each followed by a comma token.
pub open spec fn all_followed_by_commas<V>(acc: Seq<(V, Option<Cursor>)>) -> bool {
    &&& forall|k: int|
        0 <= k < acc.len() ==> ((#[trigger] acc[k]).1 matches Some(c) && c.kind == TokenKind::Comma)
    &&& comma_count(acc) == acc.len()
}

proof fn lemma_push_comma<V>(acc: Seq<(V, Option<Cursor>)>, x: (V, Option<Cursor>))
    requires
        all_followed_by_commas(acc),
    ensures
        (x.1 matches Some(c) && c.kind == TokenKind::Comma) ==> all_followed_by_commas(acc.push(x)),
        x.1 is None ==> commas_between(acc.push(x)) && comma_count(acc.push(x)) + 1 == acc.push(x).len(),
{
    assert(acc.push(x).drop_last() =~= acc);
    assert forall|k: int| 0 <= k < acc.len() implies #[trigger] acc.push(x)[k] == acc[k] by {}
}

proof fn lemma_comma_list_shape<T: Parse>(
    src: Seq<u8>,
    ts: Seq<Cursor>,
    i: int,
    acc: Seq<(T::V, Option<Cursor>)>,
)
    requires
        0 <= i <= ts.len(),
        all_followed_by_commas(acc),
    ensures
        comma_list_from::<T>(src, ts, i, acc) matches Ok((res, e)) ==> {
            &&& commas_between(res)
            &&& comma_count(res) + 1 == res.len()
            &&& (writes_back_in_order::<T>(src, ts) ==> pairs_cursors::<T>(res) == pairs_cursors::<T>(
                acc,
            ) + ts.subrange(i, e))
        },
    decreases ts.len() - i,
{
    T::lemma_parse_advances(src, ts, i);
    if let Ok((item, e1)) = T::spec_parse(src, ts, i) {
        if kind_at(ts, e1) == TokenKind::Comma {
            let acc2 = acc.push((item, Some(ts[e1])));
            lemma_push_comma(acc, (item, Some(ts[e1])));
            lemma_comma_list_shape::<T>(src, ts, e1 + 1, acc2);
            lemma_comma_list_from::<T>(src, ts, e1 + 1, acc2);
            lemma_pairs_cursors_push::<T>(acc, (item, Some(ts[e1])));
            if let Ok((res, e)) = comma_list_from::<T>(src, ts, e1 + 1, acc2) {
                if writes_back_in_order::<T>(src, ts) {
                    assert(T::spec_cursors(item) == ts.subrange(i, e1));
                    assert(ts.subrange(i, e) =~= ts.subrange(i, e1) + seq![ts[e1]] + ts.subrange(
                        e1 + 1,
                        e,
                    ));
                    assert(comma_cursors(Some(ts[e1])) == seq![ts[e1]]);
                    assert(pairs_cursors::<T>(res) =~= pairs_cursors::<T>(acc) + ts.subrange(i, e));
                }
            }
        } else {
            lemma_push_comma(acc, (item, None));
            lemma_pairs_cursors_push::<T>(acc, (item, None));
            if writes_back_in_order::<T>(src, ts) {
                assert(T::spec_cursors(item) == ts.subrange(i, e1));
                assert(comma_cursors(None) =~= Seq::<Cursor>::empty());
                assert(pairs_cursors::<T>(acc.push((item, None))) =~= pairs_cursors::<T>(acc)
                    + ts.subrange(i, e1));
            }
        }
    }
}

proof fn lemma_comma_separated_shape<T: Parse>(
    src: Seq<u8>,
    ts: Seq<Cursor>,
    i: int,
    acc: Seq<(T::V, Option<Cursor>)>,
)
    requires
        0 <= i <= ts.len(),
        all_followed_by_commas(acc),
    ensures
        comma_separated_from::<T>(src, ts, i, acc) matches Ok((res, e)) ==> {
            &&& commas_between(res)
            &&& comma_count(res) + 1 == res.len()
            &&& (writes_back_in_order::<T>(src, ts) ==> pairs_cursors::<T>(res) == pairs_cursors::<T>(
                acc,
            ) + ts.subrange(i, e))
        },
    decreases ts.len() - i,
{
    T::lemma_parse_advances(src, ts, i);
    if let Ok((item, e1)) = T::spec_parse(src, ts, i) {
        if kind_at(ts, e1) == TokenKind::Comma && T::spec_peek(src, ts, e1 + 1) {
            let acc2 = acc.push((item, Some(ts[e1])));
            lemma_push_comma(acc, (item, Some(ts[e1])));
            lemma_comma_separated_shape::<T>(src, ts, e1 + 1, acc2);
            lemma_comma_separated_from::<T>(src, ts, e1 + 1, acc2);
            lemma_pairs_cursors_push::<T>(acc, (item, Some(ts[e1])));
            if let Ok((res, e)) = comma_separated_from::<T>(src, ts, e1 + 1, acc2) {
                if writes_back_in_order::<T>(src, ts) {
                    assert(T::spec_cursors(item) == ts.subrange(i, e1));
                    assert(ts.subrange(i, e) =~= ts.subrange(i, e1) + seq![ts[e1]] + ts.subrange(
                        e1 + 1,
                        e,
                    ));
                    assert(comma_cursors(Some(ts[e1])) == seq![ts[e1]]);
                    assert(pairs_cursors::<T>(res) =~= pairs_cursors::<T>(acc) + ts.subrange(i, e));
                }
            }
        } else {
            lemma_push_comma(acc, (item, None));
            lemma_pairs_cursors_push::<T>(acc, (item, None));
            if writes_back_in_order::<T>(src, ts) {
                assert(T::spec_cursors(item) == ts.subrange(i, e1));
                assert(comma_cursors(None) =~= Seq::<Cursor>::empty());
                assert(pairs_cursors::<T>(acc.push((item, None))) =~= pairs_cursors::<T>(acc)
                    + ts.subrange(i, e1));
            }
        }
    }
}

/// A list read by `parse_comma_separated` has one more item than commas:
/// every item but the last is followed by a comma token, the last by none.
/// And where each item writes back exactly the tokens it was read from, in
/// order, the list (each item, then its comma) writes back exactly the
/// tokens it was read from, in order.
pub proof fn lemma_parse_comma_separated_shape<T: Parse>(src: Seq<u8>, ts: Seq<Cursor>, i: int)
    requires
        0 <= i <= ts.len(),
    ensures
        spec_parse_comma_separated::<T>(src, ts, i) matches Ok((items, e)) ==> {
            &&& commas_between(items)
            &&& comma_count(items) + 1 == items.len()
            &&& (writes_back_in_order::<T>(src, ts) ==> pairs_cursors::<T>(items) == ts.subrange(i, e))
        },
{
    let empty = Seq::<(T::V, Option<Cursor>)>::empty();
    assert(all_followed_by_commas(empty));
    lemma_comma_list_shape::<T>(src, ts, i, empty);
    assert(pairs_cursors::<T>(empty) =~= Seq::<Cursor>::empty());
    if let Ok((items, e)) = spec_parse_comma_separated::<T>(src, ts, i) {
        assert(Seq::<Cursor>::empty() + ts.subrange(i, e) =~= ts.subrange(i, e));
    }
}

/// The same for `CommaSeparated`: one more item than commas, and in-order
/// write-back of the whole list where each item writes back in order.
pub proof fn lemma_comma_separated_list_shape<T: Parse>(src: Seq<u8>, ts: Seq<Cursor>, i: int)
    requires
        0 <= i <= ts.len(),
    ensures
        CommaSeparated::<T>::spec_parse(src, ts, i) matches Ok((items, e)) ==> {
            &&& commas_between(items)
            &&& comma_count(items) + 1 == items.len()
            &&& (writes_back_in_order::<T>(src, ts) ==> CommaSeparated::<T>::spec_cursors(items)
                == ts.subrange(i, e))
        },
{
    let empty = Seq::<(T::V, Option<Cursor>)>::empty();
    assert(all_followed_by_commas(empty));
    lemma_comma_separated_shape::<T>(src, ts, i, empty);
    assert(pairs_cursors::<T>(empty) =~= Seq::<Cursor>::empty());
    if let Ok((items, e)) = CommaSeparated::<T>::spec_parse(src, ts, i) {
        assert(Seq::<Cursor>::empty() + ts.subrange(i, e) =~= ts.subrange(i, e));
    }
}

/// A whole source text read as one `T`: its significant tokens must parse as
/// a `T` from the first one, and none may be left over (else the error is
/// `ExpectedEnd` at the first token left).
pub open spec fn spec_parse_source<T: Parse>(source: &str) -> Result<T::V, ParseError> {
    let ts = spec_tokenize(source);
    match T::spec_parse(source.spec_bytes(), ts, 0) {
        Err(e) => Err(e),
        Ok((v, e)) => {
            if e < ts.len() {
                Err(error_at(ErrorKind::ExpectedEnd, e))
            } else {
                Ok(v)
            }
        },
    }
}

/// Parses a whole source text as one `T`.
pub fn parse_source<T: Parse>(source: &str) -> (r: Result<T, ParseError>)
    requires
        within_lexer_limits(source.spec_bytes()),
    ensures
        match r {
            Ok(v) => spec_parse_source::<T>(source) == Ok::<T::V, ParseError>(v@),
            Err(x) => spec_parse_source::<T>(source) == Err::<T::V, ParseError>(x),
        },
{
    let ts = tokenize(source);
    let src = source.as_bytes();
    match T::parse(src, ts.as_slice(), 0) {
        Err(e) => Err(e),
        Ok((v, e)) => {
            if e < ts.len() {
                Err(ParseError { kind: ErrorKind::ExpectedEnd, at: e })
            } else {
                Ok(v)
            }
        },
    }
}

/// Whether a `T` can start at the beginning of a source text.
pub fn peek_source<T: Peek>(source: &str) -> (b: bool)
    requires
        within_lexer_limits(source.spec_bytes()),
    ensures
        b == T::spec_peek(source.spec_bytes(), spec_tokenize(source), 0),
{
    let ts = tokenize(source);
    T::peek(source.as_bytes(), ts.as_slice(), 0)
}

/// Writing a value parsed from a whole source text back out gives exactly
/// the source's significant tokens: none lost, none added.
pub proof fn lemma_parse_source_lossless<T: Parse>(source: &str)
    ensures
        spec_parse_source::<T>(source) matches Ok(v) ==> T::spec_cursors(v).to_multiset()
            =~= spec_tokenize(source).to_multiset(),
{
    let ts = spec_tokenize(source);
    T::lemma_parse_lossless(source.spec_bytes(), ts, 0);
    T::lemma_parse_advances(source.spec_bytes(), ts, 0);
    if let Ok((v, e)) = T::spec_parse(source.spec_bytes(), ts, 0) {
        if e >= ts.len() {
            assert(ts.subrange(0, e) =~= ts);
        }
    }
}

/// The span of a value parsed from a whole source text runs from the start
/// of the source's first significant token to the end of its last.
pub proof fn lemma_parse_source_span<T: ParseSpan>(source: &str)
    requires
        source.spec_bytes().len() <= u32::MAX,
    ensures
        spec_parse_source::<T>(source) matches Ok(v) ==> {
            let ts = spec_tokenize(source);
            <T as ToSpan>::spec_span(v) == range_span(ts, 0, ts.len() as int)
        },
{
    let ts = spec_tokenize(source);
    lemma_tokenize_ordered(source);
    T::lemma_parse_span(source.spec_bytes(), ts, 0);
    T::lemma_parse_advances(source.spec_bytes(), ts, 0);
}


/// Cursors in source order: each starts at or after the one before it.
pub open spec fn in_source_order(w: Seq<Cursor>) -> bool {
    forall|a: int, b: int| 0 <= a < b < w.len() ==> #[trigger] w[a].offset <= #[trigger] w[b].offset
}

/// Two runs holding the same cursors, one ordered as tokens are and the other
/// in source order, are the same run.
pub proof fn lemma_source_order_unique(x: Seq<Cursor>, y: Seq<Cursor>)
    requires
        tokens_ordered(x),
        in_source_order(y),
        x.to_multiset() =~= y.to_multiset(),
    ensures
        x =~= y,
    decreases x.len(),
{
    broadcast use vstd::multiset::group_multiset_axioms;
    broadcast use vstd::seq_lib::group_to_multiset_ensures;
    broadcast use vstd::seq_lib::group_seq_properties;

    assert(x.len() == x.to_multiset().len());
    assert(y.len() == y.to_multiset().len());
    if x.len() > 0 {
        assert(x.to_multiset().count(x[0]) > 0);
        assert(y.contains(x[0]));
        let j = choose|j: int| 0 <= j < y.len() && y[j] == x[0];
        assert(y.to_multiset().count(y[0]) > 0);
        assert(x.contains(y[0]));
        let i = choose|i: int| 0 <= i < x.len() && x[i] == y[0];
        if i > 0 {
            assert(x[0].end() <= x[i].offset);
            assert(x[0].len > 0);
            if j > 0 {
                assert(y[0].offset <= y[j].offset);
            }
            assert(false);
        }
        assert(x[0] == y[0]);
        let x1 = x.drop_first();
        let y1 = y.drop_first();
        assert(x.remove(0) =~= x1);
        assert(y.remove(0) =~= y1);
        assert(x1.to_multiset() =~= y1.to_multiset());
        assert forall|a: int, b: int| 0 <= a < b < x1.len() implies #[trigger] x1[a].end()
            <= #[trigger] x1[b].offset by {
            assert(x1[a] == x[a + 1] && x1[b] == x[b + 1]);
        }
        assert forall|k: int| 0 <= k < x1.len() implies #[trigger] x1[k].len > 0 && x1[k].end()
            <= u32::MAX by {
            assert(x1[k] == x[k + 1]);
        }
        assert forall|a: int, b: int| 0 <= a < b < y1.len() implies #[trigger] y1[a].offset
            <= #[trigger] y1[b].offset by {
            assert(y1[a] == y[a + 1] && y1[b] == y[b + 1]);
        }
        lemma_source_order_unique(x1, y1);
        assert(x =~= seq![x[0]] + x1);
        assert(y =~= seq![y[0]] + y1);
    }
}

/// Writing a parsed node back out and putting what was written in source
/// order gives exactly the tokens the node was read from, in order.
pub proof fn lemma_parse_round_trip<T: Parse>(src: Seq<u8>, ts: Seq<Cursor>, i: int, w: Seq<Cursor>)
    requires
        tokens_ordered(ts),
        0 <= i <= ts.len(),
        T::spec_parse(src, ts, i) matches Ok((v, _)) && w.to_multiset() =~= T::spec_cursors(
            v,
        ).to_multiset(),
        in_source_order(w),
    ensures
        T::spec_parse(src, ts, i) matches Ok((_, e)) && w == ts.subrange(i, e),
{
    T::lemma_parse_lossless(src, ts, i);
    T::lemma_parse_advances(src, ts, i);
    if let Ok((v, e)) = T::spec_parse(src, ts, i) {
        let sub = ts.subrange(i, e);
        assert forall|a: int, b: int| 0 <= a < b < sub.len() implies #[trigger] sub[a].end()
            <= #[trigger] sub[b].offset by {
            assert(sub[a] == ts[i + a] && sub[b] == ts[i + b]);
        }
        assert forall|k: int| 0 <= k < sub.len() implies #[trigger] sub[k].len > 0 && sub[k].end()
            <= u32::MAX by {
            assert(sub[k] == ts[i + k]);
        }
        lemma_source_order_unique(sub, w);
    }
}

/// A value parsed from a whole source text, written back out and put in
/// source order, gives back exactly the source's significant tokens.
pub proof fn lemma_parse_source_round_trip<T: Parse>(source: &str, w: Seq<Cursor>)
    requires
        source.spec_bytes().len() <= u32::MAX,
        spec_parse_source::<T>(source) matches Ok(v) && w.to_multiset() =~= T::spec_cursors(
            v,
        ).to_multiset(),
        in_source_order(w),
    ensures
        w == spec_tokenize(source),
{
    let ts = spec_tokenize(source);
    lemma_tokenize_ordered(source);
    lemma_parse_round_trip::<T>(source.spec_bytes(), ts, 0, w);
    T::lemma_parse_advances(source.spec_bytes(), ts, 0);
    assert(ts.subrange(0, ts.len() as int) =~= ts);
}

} // verus!

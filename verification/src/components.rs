//! The values a gap rule is made of, `<line-width>`, `<line-style>` and
//! `<color>`, and the gap rule itself:
//! `<gap-rule> = <line-width> || <line-style> || <color>`.
use crate::keywords::{
    check_hex_color_digits, check_zero_number, color_function_list, color_function_names,
    color_list, color_names, eq_ignore_case, in_list, range_eq, is_hex_color_digits, is_non_negative, is_zero_number, length_unit_list,
    length_unit_names, line_style_list, line_style_names, line_width_list, line_width_names,
    range_in_list, range_text, text_of, unescape,
};
use crate::syntax::{
    ErrorKind, Parse, ParseError, ParseSpan, Peek, SemanticEq, ToCursors, ToSpan, cursors_eq, error_at,
    lemma_subrange_multiset_split,
};
use crate::token::{
    Cursor, Span, TokenKind, cursor_span, dummy_span, lemma_cursor_span_range, lemma_range_span_union,
    lemma_span_union_laws, range_span, span_union, tokens_ordered,
};
use vstd::prelude::*;
use vstd::string::StringSliceAdditionalSpecFns;

verus! {

/// The name an identifier stands for (its text, unescaped).
pub open spec fn ident_text(src: Seq<u8>, c: Cursor) -> Seq<u32> {
    unescape(text_of(src, c.offset as int, c.end()))
}

/// The name of a function token (without its `(`), unescaped.
pub open spec fn function_name(src: Seq<u8>, c: Cursor) -> Seq<u32> {
    unescape(text_of(src, c.offset as int, c.end() - 1))
}

/// The numeric part of a number or dimension.
pub open spec fn numeric_text(src: Seq<u8>, c: Cursor) -> Seq<u8> {
    text_of(src, c.offset as int, c.offset + c.num_len)
}

/// The unit of a dimension, unescaped.
pub open spec fn unit_text(src: Seq<u8>, c: Cursor) -> Seq<u32> {
    unescape(text_of(src, c.offset + c.num_len, c.end()))
}

/// The characters of a hash token after its `#`.
pub open spec fn hash_text(src: Seq<u8>, c: Cursor) -> Seq<u8> {
    text_of(src, c.offset + 1, c.end())
}

/// An identifier that is one of the keywords of `list`.
pub open spec fn ident_in(src: Seq<u8>, c: Cursor, list: Seq<&str>) -> bool {
    c.kind == TokenKind::Ident && in_list(ident_text(src, c), list)
}

/// A function whose name is one of the keywords of `list`.
pub open spec fn function_in(src: Seq<u8>, c: Cursor, list: Seq<&str>) -> bool {
    c.kind == TokenKind::Function && in_list(function_name(src, c), list)
}

/// An identifier that is the keyword `kw`.
pub open spec fn ident_is(src: Seq<u8>, c: Cursor, kw: &str) -> bool {
    c.kind == TokenKind::Ident && eq_ignore_case(ident_text(src, c), kw.spec_bytes())
}

/// A function named `kw`.
pub open spec fn function_is(src: Seq<u8>, c: Cursor, kw: &str) -> bool {
    c.kind == TokenKind::Function && eq_ignore_case(function_name(src, c), kw.spec_bytes())
}

pub fn ident_is_exec(src: &[u8], c: Cursor, kw: &str) -> (b: bool)
    ensures
        b == ident_is(src@, c, kw),
{
    c.kind == TokenKind::Ident && range_eq(src, c.offset as u64, c.offset as u64 + c.len as u64, kw)
}

pub fn function_is_exec(src: &[u8], c: Cursor, kw: &str) -> (b: bool)
    ensures
        b == function_is(src@, c, kw),
{
    if c.kind != TokenKind::Function {
        return false;
    }
    if c.len == 0 {
        proof {
            assert(text_of(src@, c.offset as int, c.end() - 1) == text_of(src@, 1, 0));
        }
        return range_eq(src, 1, 0, kw);
    }
    range_eq(src, c.offset as u64, c.offset as u64 + c.len as u64 - 1, kw)
}

pub fn ident_in_exec(src: &[u8], c: Cursor, list: &[&str]) -> (b: bool)
    ensures
        b == ident_in(src@, c, list@),
{
    c.kind == TokenKind::Ident && range_in_list(src, c.offset as u64, c.offset as u64 + c.len as u64, list)
}

pub fn function_in_exec(src: &[u8], c: Cursor, list: &[&str]) -> (b: bool)
    ensures
        b == function_in(src@, c, list@),
{
    if c.kind != TokenKind::Function {
        return false;
    }
    if c.len == 0 {
        proof {
            assert(text_of(src@, c.offset as int, c.end() - 1) == text_of(src@, 1, 0));
        }
        return range_in_list(src, 1, 0, list);
    }
    range_in_list(src, c.offset as u64, c.offset as u64 + c.len as u64 - 1, list)
}

/// `<line-width>`: `thin`, `medium`, `thick`, a non-negative length, or a
/// unitless zero.
#[derive(Clone, Copy, Debug, PartialEq, Eq, Structural)]
pub struct LineWidth(pub Cursor);

pub open spec fn is_line_width(src: Seq<u8>, c: Cursor) -> bool {
    ||| ident_in(src, c, line_width_names())
    ||| (c.kind == TokenKind::Dimension && is_non_negative(numeric_text(src, c)) && in_list(
        unit_text(src, c),
        length_unit_names(),
    ))
    ||| (c.kind == TokenKind::Number && is_zero_number(numeric_text(src, c)))
}

pub fn check_line_width(src: &[u8], c: Cursor) -> (b: bool)
    ensures
        b == is_line_width(src@, c),
{
    let widths = line_width_list();
    if ident_in_exec(src, c, &widths) {
        return true;
    }
    let start = c.offset as u64;
    let num_end = c.offset as u64 + c.num_len as u64;
    let end = c.offset as u64 + c.len as u64;
    if c.kind == TokenKind::Dimension {
        let units = length_unit_list();
        let num = range_text(src, start, num_end);
        let non_negative = !(num.len() > 0 && num[0] == 0x2d);
        non_negative && range_in_list(src, num_end, end, &units)
    } else if c.kind == TokenKind::Number {
        let num = range_text(src, start, num_end);
        check_zero_number(num)
    } else {
        false
    }
}

impl View for LineWidth {
    type V = LineWidth;

    open spec fn view(&self) -> LineWidth {
        *self
    }
}

impl Peek for LineWidth {
    /// A dimension or number, or one of the width keywords.
    open spec fn spec_peek(src: Seq<u8>, ts: Seq<Cursor>, i: int) -> bool {
        0 <= i < ts.len() && (ts[i].kind == TokenKind::Dimension || ts[i].kind == TokenKind::Number
            || ident_in(src, ts[i], line_width_names()))
    }

    fn peek(src: &[u8], ts: &[Cursor], i: usize) -> (b: bool) {
        if i >= ts.len() {
            return false;
        }
        let c = ts[i];
        let widths = line_width_list();
        c.kind == TokenKind::Dimension || c.kind == TokenKind::Number || ident_in_exec(src, c, &widths)
    }
}

impl ToCursors for LineWidth {
    open spec fn spec_cursors(v: LineWidth) -> Seq<Cursor> {
        seq![v.0]
    }

    fn to_cursors(&self, s: &mut Vec<Cursor>) {
        s.push(self.0);
    }
}

impl ToSpan for LineWidth {
    open spec fn spec_span(v: LineWidth) -> Span {
        cursor_span(v.0)
    }

    fn to_span(&self) -> (s: Span) {
        Span::of(self.0)
    }
}

impl Parse for LineWidth {
    open spec fn spec_parse(src: Seq<u8>, ts: Seq<Cursor>, i: int) -> Result<(LineWidth, int), ParseError> {
        if 0 <= i < ts.len() && is_line_width(src, ts[i]) {
            Ok((LineWidth(ts[i]), i + 1))
        } else {
            Err(error_at(ErrorKind::Unexpected, i))
        }
    }

    proof fn lemma_parse_advances(src: Seq<u8>, ts: Seq<Cursor>, i: int) {
    }

    proof fn lemma_parse_implies_peek(src: Seq<u8>, ts: Seq<Cursor>, i: int) {
    }

    proof fn lemma_parse_lossless(src: Seq<u8>, ts: Seq<Cursor>, i: int) {
        if Self::spec_parse(src, ts, i) is Ok {
            assert(ts.subrange(i, i + 1) =~= seq![ts[i]]);
        }
    }

    fn parse(src: &[u8], ts: &[Cursor], i: usize) -> (r: Result<(Self, usize), ParseError>) {
        if i < ts.len() && check_line_width(src, ts[i]) {
            Ok((LineWidth(ts[i]), i + 1))
        } else {
            Err(ParseError { kind: ErrorKind::Unexpected, at: i })
        }
    }
}

/// `<line-style>`: one of its ten keywords.
#[derive(Clone, Copy, Debug, PartialEq, Eq, Structural)]
pub struct LineStyle(pub Cursor);

impl View for LineStyle {
    type V = LineStyle;

    open spec fn view(&self) -> LineStyle {
        *self
    }
}

impl Peek for LineStyle {
    open spec fn spec_peek(src: Seq<u8>, ts: Seq<Cursor>, i: int) -> bool {
        0 <= i < ts.len() && ident_in(src, ts[i], line_style_names())
    }

    fn peek(src: &[u8], ts: &[Cursor], i: usize) -> (b: bool) {
        if i >= ts.len() {
            return false;
        }
        let styles = line_style_list();
        ident_in_exec(src, ts[i], &styles)
    }
}

impl ToCursors for LineStyle {
    open spec fn spec_cursors(v: LineStyle) -> Seq<Cursor> {
        seq![v.0]
    }

    fn to_cursors(&self, s: &mut Vec<Cursor>) {
        s.push(self.0);
    }
}

impl ToSpan for LineStyle {
    open spec fn spec_span(v: LineStyle) -> Span {
        cursor_span(v.0)
    }

    fn to_span(&self) -> (s: Span) {
        Span::of(self.0)
    }
}

impl Parse for LineStyle {
    open spec fn spec_parse(src: Seq<u8>, ts: Seq<Cursor>, i: int) -> Result<(LineStyle, int), ParseError> {
        if Self::spec_peek(src, ts, i) {
            Ok((LineStyle(ts[i]), i + 1))
        } else {
            Err(error_at(ErrorKind::Unexpected, i))
        }
    }

    proof fn lemma_parse_advances(src: Seq<u8>, ts: Seq<Cursor>, i: int) {
    }

    proof fn lemma_parse_implies_peek(src: Seq<u8>, ts: Seq<Cursor>, i: int) {
    }

    proof fn lemma_parse_lossless(src: Seq<u8>, ts: Seq<Cursor>, i: int) {
        if Self::spec_parse(src, ts, i) is Ok {
            assert(ts.subrange(i, i + 1) =~= seq![ts[i]]);
        }
    }

    fn parse(src: &[u8], ts: &[Cursor], i: usize) -> (r: Result<(Self, usize), ParseError>) {
        if Self::peek(src, ts, i) {
            Ok((LineStyle(ts[i]), i + 1))
        } else {
            Err(ParseError { kind: ErrorKind::Unexpected, at: i })
        }
    }
}


/// The position of the `)` that closes a block opened before position `i`,
/// with `depth` more blocks (functions or parentheses) opened since.
pub open spec fn block_close(ts: Seq<Cursor>, i: int, depth: nat) -> Option<int>
    decreases ts.len() - i,
{
    if i < 0 || i >= ts.len() {
        None
    } else if ts[i].kind == TokenKind::RightParen {
        if depth == 0 {
            Some(i)
        } else {
            block_close(ts, i + 1, (depth - 1) as nat)
        }
    } else if ts[i].kind == TokenKind::Function || ts[i].kind == TokenKind::LeftParen {
        block_close(ts, i + 1, depth + 1)
    } else {
        block_close(ts, i + 1, depth)
    }
}

pub proof fn lemma_block_close(ts: Seq<Cursor>, i: int, depth: nat)
    ensures
        block_close(ts, i, depth) matches Some(j) ==> 0 <= i <= j < ts.len() && ts[j].kind
            == TokenKind::RightParen,
    decreases ts.len() - i,
{
    if 0 <= i < ts.len() {
        if ts[i].kind == TokenKind::RightParen {
            if depth != 0 {
                lemma_block_close(ts, i + 1, (depth - 1) as nat);
            }
        } else if ts[i].kind == TokenKind::Function || ts[i].kind == TokenKind::LeftParen {
            lemma_block_close(ts, i + 1, depth + 1);
        } else {
            lemma_block_close(ts, i + 1, depth);
        }
    }
}

/// Finds the `)` that closes the block opened just before position `i`.
pub fn find_block_close(ts: &[Cursor], i: usize) -> (r: Option<usize>)
    ensures
        r == (match block_close(ts@, i as int, 0) {
            Some(j) => Some(j as usize),
            None => None,
        }),
{
    let mut k = i;
    let mut depth: usize = 0;
    while k < ts.len()
        invariant
            i <= k,
            k <= ts@.len() || k == i,
            depth <= k - i,
            block_close(ts@, k as int, depth as nat) == block_close(ts@, i as int, 0),
        decreases ts@.len() - k,
    {
        let kind = ts[k].kind;
        if kind == TokenKind::RightParen {
            if depth == 0 {
                return Some(k);
            }
            depth = depth - 1;
        } else if kind == TokenKind::Function || kind == TokenKind::LeftParen {
            depth = depth + 1;
        }
        k = k + 1;
    }
    None
}

/// `<color>`: a hex color, a color keyword, or a color function with its
/// arguments (the tokens up to the matching `)`, which are not checked
/// further).
pub struct Color {
    pub tokens: Vec<Cursor>,
}

impl View for Color {
    type V = Seq<Cursor>;

    open spec fn view(&self) -> Seq<Cursor> {
        self.tokens@
    }
}

/// A color that is a single token: a hex color or a color keyword.
pub open spec fn is_color_token(src: Seq<u8>, c: Cursor) -> bool {
    (c.kind == TokenKind::Hash && is_hex_color_digits(hash_text(src, c))) || ident_in(
        src,
        c,
        color_names(),
    )
}

pub fn check_color_token(src: &[u8], c: Cursor) -> (b: bool)
    ensures
        b == is_color_token(src@, c),
{
    if c.kind == TokenKind::Hash {
        let digits = range_text(src, c.offset as u64 + 1, c.offset as u64 + c.len as u64);
        if check_hex_color_digits(digits) {
            return true;
        }
    }
    let colors = color_list();
    ident_in_exec(src, c, &colors)
}

impl Peek for Color {
    /// A hash, a color keyword, or a color function.
    open spec fn spec_peek(src: Seq<u8>, ts: Seq<Cursor>, i: int) -> bool {
        0 <= i < ts.len() && (ts[i].kind == TokenKind::Hash || ident_in(src, ts[i], color_names())
            || function_in(src, ts[i], color_function_names()))
    }

    fn peek(src: &[u8], ts: &[Cursor], i: usize) -> (b: bool) {
        if i >= ts.len() {
            return false;
        }
        let c = ts[i];
        let colors = color_list();
        let functions = color_function_list();
        c.kind == TokenKind::Hash || ident_in_exec(src, c, &colors) || function_in_exec(
            src,
            c,
            &functions,
        )
    }
}

/// Appends the cursors `t` to `s`.
pub fn extend_cursors(s: &mut Vec<Cursor>, t: &Vec<Cursor>)
    ensures
        final(s)@ == old(s)@ + t@,
{
    let ghost start = s@;
    let mut k: usize = 0;
    while k < t.len()
        invariant
            k <= t@.len(),
            s@ == start + t@.take(k as int),
        decreases t@.len() - k,
    {
        s.push(t[k]);
        assert(t@.take(k + 1) =~= t@.take(k as int).push(t@[k as int]));
        k = k + 1;
    }
    assert(t@.take(k as int) =~= t@);
}

impl ToCursors for Color {
    open spec fn spec_cursors(v: Seq<Cursor>) -> Seq<Cursor> {
        v
    }

    fn to_cursors(&self, s: &mut Vec<Cursor>) {
        extend_cursors(s, &self.tokens);
    }
}

impl ToSpan for Color {
    /// The first token's span joined with the last's.
    open spec fn spec_span(v: Seq<Cursor>) -> Span {
        if v.len() == 0 {
            dummy_span()
        } else {
            span_union(cursor_span(v[0]), cursor_span(v.last()))
        }
    }

    fn to_span(&self) -> (s: Span) {
        let n = self.tokens.len();
        if n == 0 {
            Span::dummy()
        } else {
            Span::of(self.tokens[0]).union(Span::of(self.tokens[n - 1]))
        }
    }
}

impl Parse for Color {
    /// A hex color or a color keyword (one token), or a color function with
    /// every token up to its matching `)`: the function's arguments are not
    /// checked.
    open spec fn spec_parse(src: Seq<u8>, ts: Seq<Cursor>, i: int) -> Result<(Seq<Cursor>, int), ParseError> {
        if !(0 <= i < ts.len()) {
            Err(error_at(ErrorKind::Unexpected, i))
        } else if is_color_token(src, ts[i]) {
            Ok((seq![ts[i]], i + 1))
        } else if function_in(src, ts[i], color_function_names()) {
            match block_close(ts, i + 1, 0) {
                Some(j) => Ok((ts.subrange(i, j + 1), j + 1)),
                None => Err(error_at(ErrorKind::Unexpected, ts.len() as int)),
            }
        } else {
            Err(error_at(ErrorKind::Unexpected, i))
        }
    }

    proof fn lemma_parse_advances(src: Seq<u8>, ts: Seq<Cursor>, i: int) {
        lemma_block_close(ts, i + 1, 0);
    }

    proof fn lemma_parse_implies_peek(src: Seq<u8>, ts: Seq<Cursor>, i: int) {
    }

    proof fn lemma_parse_lossless(src: Seq<u8>, ts: Seq<Cursor>, i: int) {
        lemma_block_close(ts, i + 1, 0);
        if Self::spec_parse(src, ts, i) is Ok && is_color_token(src, ts[i]) {
            assert(ts.subrange(i, i + 1) =~= seq![ts[i]]);
        }
    }

    fn parse(src: &[u8], ts: &[Cursor], i: usize) -> (r: Result<(Self, usize), ParseError>) {
        if i >= ts.len() {
            return Err(ParseError { kind: ErrorKind::Unexpected, at: i });
        }
        let c = ts[i];
        if check_color_token(src, c) {
            let mut tokens = Vec::new();
            tokens.push(c);
            assert(tokens@ =~= seq![c]);
            return Ok((Color { tokens }, i + 1));
        }
        let functions = color_function_list();
        if function_in_exec(src, c, &functions) {
            match find_block_close(ts, i + 1) {
                Some(j) => {
                    proof {
                        lemma_block_close(ts@, i + 1, 0);
                    }
                    let tokens = vstd::slice::slice_to_vec(vstd::slice::slice_subrange(ts, i, j + 1));
                    Ok((Color { tokens }, j + 1))
                },
                None => Err(ParseError { kind: ErrorKind::Unexpected, at: ts.len() }),
            }
        } else {
            Err(ParseError { kind: ErrorKind::Unexpected, at: i })
        }
    }
}


/// `<gap-rule> = <line-width> || <line-style> || <color>`: each of the three
/// at most once, in any order, at least one of them.
pub struct GapRule(pub Option<LineWidth>, pub Option<LineStyle>, pub Option<Color>);

pub open spec fn color_view(c: Option<Color>) -> Option<Seq<Cursor>> {
    match c {
        Some(c) => Some(c@),
        None => None,
    }
}

impl View for GapRule {
    type V = (Option<LineWidth>, Option<LineStyle>, Option<Seq<Cursor>>);

    open spec fn view(&self) -> (Option<LineWidth>, Option<LineStyle>, Option<Seq<Cursor>>) {
        (self.0, self.1, color_view(self.2))
    }
}

/// The number of parts of a gap rule still missing.
pub open spec fn missing_parts(
    w: Option<LineWidth>,
    s: Option<LineStyle>,
    c: Option<Seq<Cursor>>,
) -> nat {
    (if w is None { 1nat } else { 0nat }) + (if s is None { 1nat } else { 0nat }) + (if c is None {
        1nat
    } else {
        0nat
    })
}

/// The rest of a gap rule from position `i`, with the parts `w`, `s` and `c`
/// already read: each round the first missing part that peeks is parsed; when
/// none peeks (or none is missing) the rule ends, which is an error only if
/// no part at all was read.
pub open spec fn gap_rule_from(
    src: Seq<u8>,
    ts: Seq<Cursor>,
    i: int,
    w: Option<LineWidth>,
    s: Option<LineStyle>,
    c: Option<Seq<Cursor>>,
) -> Result<((Option<LineWidth>, Option<LineStyle>, Option<Seq<Cursor>>), int), ParseError>
    decreases missing_parts(w, s, c),
{
    if w is None && LineWidth::spec_peek(src, ts, i) {
        match LineWidth::spec_parse(src, ts, i) {
            Err(e) => Err(e),
            Ok((v, e)) => gap_rule_from(src, ts, e, Some(v), s, c),
        }
    } else if s is None && LineStyle::spec_peek(src, ts, i) {
        match LineStyle::spec_parse(src, ts, i) {
            Err(e) => Err(e),
            Ok((v, e)) => gap_rule_from(src, ts, e, w, Some(v), c),
        }
    } else if c is None && Color::spec_peek(src, ts, i) {
        match Color::spec_parse(src, ts, i) {
            Err(e) => Err(e),
            Ok((v, e)) => gap_rule_from(src, ts, e, w, s, Some(v)),
        }
    } else if w is None && s is None && c is None {
        Err(error_at(ErrorKind::Unexpected, i))
    } else {
        Ok(((w, s, c), i))
    }
}

pub open spec fn opt_cursors<T: ToCursors>(o: Option<T::V>) -> Seq<Cursor> {
    match o {
        Some(v) => T::spec_cursors(v),
        None => Seq::empty(),
    }
}

pub open spec fn opt_span<T: ToSpan>(o: Option<T::V>) -> Span {
    match o {
        Some(v) => T::spec_span(v),
        None => dummy_span(),
    }
}

pub open spec fn gap_rule_cursors(
    v: (Option<LineWidth>, Option<LineStyle>, Option<Seq<Cursor>>),
) -> Seq<Cursor> {
    opt_cursors::<LineWidth>(v.0) + opt_cursors::<LineStyle>(v.1) + opt_cursors::<Color>(v.2)
}

proof fn lemma_gap_rule_from(
    src: Seq<u8>,
    ts: Seq<Cursor>,
    i0: int,
    i: int,
    w: Option<LineWidth>,
    s: Option<LineStyle>,
    c: Option<Seq<Cursor>>,
)
    requires
        0 <= i0 <= i <= ts.len(),
        gap_rule_cursors((w, s, c)).to_multiset() =~= ts.subrange(i0, i).to_multiset(),
    ensures
        gap_rule_from(src, ts, i, w, s, c) matches Ok((v, e)) ==> {
            &&& i <= e <= ts.len()
            &&& (w is None && s is None && c is None ==> i < e)
            &&& gap_rule_cursors(v).to_multiset() =~= ts.subrange(i0, e).to_multiset()
        },
    decreases missing_parts(w, s, c),
{
    broadcast use vstd::seq_lib::lemma_multiset_commutative;
    broadcast use vstd::multiset::group_multiset_axioms;

    if w is None && LineWidth::spec_peek(src, ts, i) {
        LineWidth::lemma_parse_advances(src, ts, i);
        LineWidth::lemma_parse_lossless(src, ts, i);
        if let Ok((v, e)) = LineWidth::spec_parse(src, ts, i) {
            lemma_subrange_multiset_split(ts, i0, i, e);
            assert(opt_cursors::<LineWidth>(None) =~= Seq::<Cursor>::empty());
            assert(gap_rule_cursors((Some(v), s, c)) =~= LineWidth::spec_cursors(v) + (
            opt_cursors::<LineStyle>(s) + opt_cursors::<Color>(c)));
            assert(gap_rule_cursors((w, s, c)) =~= opt_cursors::<LineStyle>(s) + opt_cursors::<
                Color,
            >(c));
            lemma_gap_rule_from(src, ts, i0, e, Some(v), s, c);
        }
    } else if s is None && LineStyle::spec_peek(src, ts, i) {
        LineStyle::lemma_parse_advances(src, ts, i);
        LineStyle::lemma_parse_lossless(src, ts, i);
        if let Ok((v, e)) = LineStyle::spec_parse(src, ts, i) {
            lemma_subrange_multiset_split(ts, i0, i, e);
            let a = opt_cursors::<LineWidth>(w);
            let b = opt_cursors::<Color>(c);
            assert(gap_rule_cursors((w, s, c)) =~= a + b);
            assert(gap_rule_cursors((w, Some(v), c)) =~= a + LineStyle::spec_cursors(v) + b);
            assert(a + LineStyle::spec_cursors(v) + b =~= a + (LineStyle::spec_cursors(v) + b));
            lemma_gap_rule_from(src, ts, i0, e, w, Some(v), c);
        }
    } else if c is None && Color::spec_peek(src, ts, i) {
        Color::lemma_parse_advances(src, ts, i);
        Color::lemma_parse_lossless(src, ts, i);
        if let Ok((v, e)) = Color::spec_parse(src, ts, i) {
            lemma_subrange_multiset_split(ts, i0, i, e);
            let a = opt_cursors::<LineWidth>(w) + opt_cursors::<LineStyle>(s);
            assert(gap_rule_cursors((w, s, c)) =~= a);
            assert(gap_rule_cursors((w, s, Some(v))) =~= a + Color::spec_cursors(v));
            lemma_gap_rule_from(src, ts, i0, e, w, s, Some(v));
        }
    }
}

impl Peek for GapRule {
    /// Any of its three parts peeks.
    open spec fn spec_peek(src: Seq<u8>, ts: Seq<Cursor>, i: int) -> bool {
        LineWidth::spec_peek(src, ts, i) || LineStyle::spec_peek(src, ts, i) || Color::spec_peek(
            src,
            ts,
            i,
        )
    }

    fn peek(src: &[u8], ts: &[Cursor], i: usize) -> (b: bool) {
        LineWidth::peek(src, ts, i) || LineStyle::peek(src, ts, i) || Color::peek(src, ts, i)
    }
}

impl ToCursors for GapRule {
    /// The width, then the style, then the color (whatever order they were written in).
    open spec fn spec_cursors(v: (Option<LineWidth>, Option<LineStyle>, Option<Seq<Cursor>>)) -> Seq<
        Cursor,
    > {
        gap_rule_cursors(v)
    }

    fn to_cursors(&self, s: &mut Vec<Cursor>) {
        let ghost start = s@;
        if let Some(w) = &self.0 {
            w.to_cursors(s);
        }
        assert(s@ == start + opt_cursors::<LineWidth>(self.0));
        let ghost mid = s@;
        if let Some(st) = &self.1 {
            st.to_cursors(s);
        }
        assert(s@ == mid + opt_cursors::<LineStyle>(self.1));
        let ghost mid2 = s@;
        if let Some(c) = &self.2 {
            c.to_cursors(s);
        }
        assert(s@ == mid2 + opt_cursors::<Color>(color_view(self.2)));
        assert(s@ =~= start + gap_rule_cursors(self@));
    }
}

impl ToSpan for GapRule {
    /// The union of the spans of its parts.
    open spec fn spec_span(v: (Option<LineWidth>, Option<LineStyle>, Option<Seq<Cursor>>)) -> Span {
        span_union(
            span_union(span_union(dummy_span(), opt_span::<LineWidth>(v.0)), opt_span::<LineStyle>(v.1)),
            opt_span::<Color>(v.2),
        )
    }

    fn to_span(&self) -> (s: Span) {
        let w = match &self.0 {
            Some(w) => w.to_span(),
            None => Span::dummy(),
        };
        let st = match &self.1 {
            Some(x) => x.to_span(),
            None => Span::dummy(),
        };
        let c = match &self.2 {
            Some(x) => x.to_span(),
            None => Span::dummy(),
        };
        Span::dummy().union(w).union(st).union(c)
    }
}

impl Parse for GapRule {
    open spec fn spec_parse(src: Seq<u8>, ts: Seq<Cursor>, i: int) -> Result<
        ((Option<LineWidth>, Option<LineStyle>, Option<Seq<Cursor>>), int),
        ParseError,
    > {
        gap_rule_from(src, ts, i, None, None, None)
    }

    proof fn lemma_parse_advances(src: Seq<u8>, ts: Seq<Cursor>, i: int) {
        assert(ts.subrange(i, i) =~= Seq::<Cursor>::empty());
        assert(gap_rule_cursors((None, None, None)) =~= Seq::<Cursor>::empty());
        lemma_gap_rule_from(src, ts, i, i, None, None, None);
    }

    proof fn lemma_parse_implies_peek(src: Seq<u8>, ts: Seq<Cursor>, i: int) {
    }

    proof fn lemma_parse_lossless(src: Seq<u8>, ts: Seq<Cursor>, i: int) {
        assert(ts.subrange(i, i) =~= Seq::<Cursor>::empty());
        assert(gap_rule_cursors((None, None, None)) =~= Seq::<Cursor>::empty());
        lemma_gap_rule_from(src, ts, i, i, None, None, None);
    }

    fn parse(src: &[u8], ts: &[Cursor], i: usize) -> (r: Result<(Self, usize), ParseError>) {
        let mut w: Option<LineWidth> = None;
        let mut st: Option<LineStyle> = None;
        let mut c: Option<Color> = None;
        let mut pos = i;
        loop
            invariant
                pos <= ts@.len(),
                gap_rule_from(src@, ts@, pos as int, w, st, color_view(c)) == gap_rule_from(
                    src@,
                    ts@,
                    i as int,
                    None,
                    None,
                    None,
                ),
            decreases missing_parts(w, st, color_view(c)),
        {
            if w.is_none() && LineWidth::peek(src, ts, pos) {
                proof {
                    LineWidth::lemma_parse_advances(src@, ts@, pos as int);
                }
                match LineWidth::parse(src, ts, pos) {
                    Err(e) => {
                        return Err(e);
                    },
                    Ok((v, e)) => {
                        w = Some(v);
                        pos = e;
                    },
                }
            } else if st.is_none() && LineStyle::peek(src, ts, pos) {
                proof {
                    LineStyle::lemma_parse_advances(src@, ts@, pos as int);
                }
                match LineStyle::parse(src, ts, pos) {
                    Err(e) => {
                        return Err(e);
                    },
                    Ok((v, e)) => {
                        st = Some(v);
                        pos = e;
                    },
                }
            } else if c.is_none() && Color::peek(src, ts, pos) {
                proof {
                    Color::lemma_parse_advances(src@, ts@, pos as int);
                }
                match Color::parse(src, ts, pos) {
                    Err(e) => {
                        return Err(e);
                    },
                    Ok((v, e)) => {
                        c = Some(v);
                        pos = e;
                    },
                }
            } else if w.is_none() && st.is_none() && c.is_none() {
                return Err(ParseError { kind: ErrorKind::Unexpected, at: pos });
            } else {
                return Ok((GapRule(w, st, c), pos));
            }
        }
    }
}


impl ParseSpan for LineWidth {
    proof fn lemma_parse_span(src: Seq<u8>, ts: Seq<Cursor>, i: int) {
        if Self::spec_parse(src, ts, i) is Ok {
            lemma_cursor_span_range(ts, i);
        }
    }
}

impl ParseSpan for LineStyle {
    proof fn lemma_parse_span(src: Seq<u8>, ts: Seq<Cursor>, i: int) {
        if Self::spec_parse(src, ts, i) is Ok {
            lemma_cursor_span_range(ts, i);
        }
    }
}

impl ParseSpan for Color {
    proof fn lemma_parse_span(src: Seq<u8>, ts: Seq<Cursor>, i: int) {
        lemma_block_close(ts, i + 1, 0);
        if let Ok((v, e)) = Self::spec_parse(src, ts, i) {
            lemma_cursor_span_range(ts, i);
            lemma_cursor_span_range(ts, e - 1);
            if e - 1 > i {
                lemma_range_span_union(ts, i, i + 1, e - 1, e);
            }
        }
    }
}

proof fn lemma_gap_rule_from_span(
    src: Seq<u8>,
    ts: Seq<Cursor>,
    i0: int,
    i: int,
    w: Option<LineWidth>,
    s: Option<LineStyle>,
    c: Option<Seq<Cursor>>,
)
    requires
        tokens_ordered(ts),
        0 <= i0 <= i <= ts.len(),
        (w is None && s is None && c is None) <==> i0 == i,
        i0 < i ==> GapRule::spec_span((w, s, c)) == range_span(ts, i0, i),
    ensures
        gap_rule_from(src, ts, i, w, s, c) matches Ok((v, e)) ==> GapRule::spec_span(v)
            == range_span(ts, i0, e),
    decreases missing_parts(w, s, c),
{
    let d = dummy_span();
    let ws = opt_span::<LineWidth>(w);
    let ss = opt_span::<LineStyle>(s);
    let cs = opt_span::<Color>(c);
    let old = GapRule::spec_span((w, s, c));
    if w is None && LineWidth::spec_peek(src, ts, i) {
        LineWidth::lemma_parse_advances(src, ts, i);
        LineWidth::lemma_parse_span(src, ts, i);
        if let Ok((v, e)) = LineWidth::spec_parse(src, ts, i) {
            let r = range_span(ts, i, e);
            lemma_span_union_laws(r, ss, cs);
            lemma_span_union_laws(d, ss, cs);
            lemma_span_union_laws(ss, cs, d);
            lemma_span_union_laws(d, d, d);
            assert(old == span_union(ss, cs));
            assert(GapRule::spec_span((Some(v), s, c)) == span_union(r, old));
            if i0 < i {
                lemma_range_span_union(ts, i0, i, i, e);
            }
            lemma_gap_rule_from_span(src, ts, i0, e, Some(v), s, c);
        }
    } else if s is None && LineStyle::spec_peek(src, ts, i) {
        LineStyle::lemma_parse_advances(src, ts, i);
        LineStyle::lemma_parse_span(src, ts, i);
        if let Ok((v, e)) = LineStyle::spec_parse(src, ts, i) {
            let r = range_span(ts, i, e);
            let x = span_union(d, ws);
            lemma_span_union_laws(x, r, cs);
            lemma_span_union_laws(x, cs, r);
            lemma_span_union_laws(r, cs, d);
            lemma_span_union_laws(x, d, d);
            lemma_span_union_laws(old, r, d);
            assert(old == span_union(x, cs));
            assert(GapRule::spec_span((w, Some(v), c)) == span_union(old, r));
            if i0 < i {
                lemma_range_span_union(ts, i0, i, i, e);
            }
            lemma_gap_rule_from_span(src, ts, i0, e, w, Some(v), c);
        }
    } else if c is None && Color::spec_peek(src, ts, i) {
        Color::lemma_parse_advances(src, ts, i);
        Color::lemma_parse_span(src, ts, i);
        if let Ok((v, e)) = Color::spec_parse(src, ts, i) {
            let r = range_span(ts, i, e);
            let y = span_union(span_union(d, ws), ss);
            lemma_span_union_laws(y, r, d);
            lemma_span_union_laws(r, d, d);
            assert(old == y);
            assert(GapRule::spec_span((w, s, Some(v))) == span_union(old, r));
            if i0 < i {
                lemma_range_span_union(ts, i0, i, i, e);
            }
            lemma_gap_rule_from_span(src, ts, i0, e, w, s, Some(v));
        }
    }
}

impl ParseSpan for GapRule {
    proof fn lemma_parse_span(src: Seq<u8>, ts: Seq<Cursor>, i: int) {
        lemma_gap_rule_from_span(src, ts, i, i, None, None, None);
    }
}

impl SemanticEq for LineWidth {
    fn semantic_eq(&self, other: &Self) -> (b: bool) {
        self.0 == other.0
    }
}

impl SemanticEq for LineStyle {
    fn semantic_eq(&self, other: &Self) -> (b: bool) {
        self.0 == other.0
    }
}

impl SemanticEq for Color {
    fn semantic_eq(&self, other: &Self) -> (b: bool) {
        cursors_eq(&self.tokens, &other.tokens)
    }
}

impl SemanticEq for GapRule {
    fn semantic_eq(&self, other: &Self) -> (b: bool) {
        let w = match (&self.0, &other.0) {
            (Some(x), Some(y)) => x.semantic_eq(y),
            (None, None) => true,
            _ => false,
        };
        let s = match (&self.1, &other.1) {
            (Some(x), Some(y)) => x.semantic_eq(y),
            (None, None) => true,
            _ => false,
        };
        let c = match (&self.2, &other.2) {
            (Some(x), Some(y)) => x.semantic_eq(y),
            (None, None) => true,
            _ => false,
        };
        w && s && c
    }
}

/// The UTF-8 length of an ASCII keyword is its number of characters.
proof fn lemma_ascii_keyword_len(kw: &str)
    requires
        vstd::utf8::is_ascii_chars(kw@),
    ensures
        kw.spec_bytes().len() == kw@.len(),
{
    vstd::utf8::is_ascii_chars_encode_utf8(kw@);
}

/// No color function is named `repeat` (none has six letters).
pub proof fn lemma_repeat_is_not_a_color_function(src: Seq<u8>, c: Cursor)
    ensures
        function_is(src, c, "repeat") ==> !function_in(src, c, color_function_names()),
{
    reveal_strlit("repeat");
    reveal_strlit("rgb");
    reveal_strlit("rgba");
    reveal_strlit("hsl");
    reveal_strlit("hsla");
    reveal_strlit("hwb");
    reveal_strlit("lab");
    reveal_strlit("lch");
    reveal_strlit("oklab");
    reveal_strlit("oklch");
    reveal_strlit("color");
    reveal_strlit("color-mix");
    reveal_strlit("light-dark");
    lemma_ascii_keyword_len("repeat");
    lemma_ascii_keyword_len("rgb");
    lemma_ascii_keyword_len("rgba");
    lemma_ascii_keyword_len("hsl");
    lemma_ascii_keyword_len("hsla");
    lemma_ascii_keyword_len("hwb");
    lemma_ascii_keyword_len("lab");
    lemma_ascii_keyword_len("lch");
    lemma_ascii_keyword_len("oklab");
    lemma_ascii_keyword_len("oklch");
    lemma_ascii_keyword_len("color");
    lemma_ascii_keyword_len("color-mix");
    lemma_ascii_keyword_len("light-dark");
    let names = color_function_names();
    assert forall|k: int| 0 <= k < names.len() implies #[trigger] names[k].spec_bytes().len() != 6 by {
    }
}


/// Each of the ten `<line-style>` keywords (none, hidden, dotted, dashed,
/// solid, double, groove, ridge, inset, outset), in any ASCII case and with
/// any escapes, is a line style.
pub proof fn lemma_line_style_keywords(src: Seq<u8>, ts: Seq<Cursor>, i: int)
    requires
        0 <= i < ts.len(),
        ts[i].kind == TokenKind::Ident,
        in_list(
            ident_text(src, ts[i]),
            seq!["none", "hidden", "dotted", "dashed", "solid", "double", "groove", "ridge", "inset", "outset"],
        ),
    ensures
        LineStyle::spec_parse(src, ts, i) == Ok::<(LineStyle, int), ParseError>((LineStyle(ts[i]), i + 1)),
{
}

/// A dimension whose value is not negative and whose unit is one of the CSS
/// `<length>` units, in any ASCII case, is a line width.
pub proof fn lemma_length_units_are_line_widths(src: Seq<u8>, ts: Seq<Cursor>, i: int)
    requires
        0 <= i < ts.len(),
        ts[i].kind == TokenKind::Dimension,
        !(numeric_text(src, ts[i]).len() > 0 && numeric_text(src, ts[i])[0] == 0x2d),
        in_list(
            unit_text(src, ts[i]),
            seq![
                "em", "rem", "ex", "rex", "cap", "rcap", "ch", "rch", "ic", "ric", "lh", "rlh",
                "vw", "svw", "lvw", "dvw", "vh", "svh", "lvh", "dvh", "vi", "svi", "lvi", "dvi",
                "vb", "svb", "lvb", "dvb", "vmin", "svmin", "lvmin", "dvmin", "vmax", "svmax",
                "lvmax", "dvmax", "cqw", "cqh", "cqi", "cqb", "cqmin", "cqmax", "cm", "mm", "q",
                "in", "pt", "pc", "px"
            ],
        ),
    ensures
        LineWidth::spec_parse(src, ts, i) == Ok::<(LineWidth, int), ParseError>((LineWidth(ts[i]), i + 1)),
{
}

/// A hash token is a color exactly when the text after its `#` is 3, 4, 6 or
/// 8 characters, each a digit or a letter from `a` to `f` in either case; a
/// color of one token is that token.
pub proof fn lemma_hash_color(src: Seq<u8>, ts: Seq<Cursor>, i: int)
    requires
        0 <= i < ts.len(),
        ts[i].kind == TokenKind::Hash,
    ensures
        ({
            let t = hash_text(src, ts[i]);
            (Color::spec_parse(src, ts, i) is Ok) <==> ((t.len() == 3 || t.len() == 4 || t.len() == 6
                || t.len() == 8) && forall|k: int|
                0 <= k < t.len() ==> ((0x30 <= #[trigger] t[k] <= 0x39) || (0x41 <= t[k] <= 0x46) || (0x61
                    <= t[k] <= 0x66)))
        }),
        Color::spec_parse(src, ts, i) is Ok ==> Color::spec_parse(src, ts, i) == Ok::<
            (Seq<Cursor>, int),
            ParseError,
        >((seq![ts[i]], i + 1)),
{
}

/// Which part of a gap rule reads from `p` to `q` (0: the width `w`, 1: the
/// style `s`, 2: the color `c`), where neither of the other two parts could
/// start at `p`.
pub open spec fn gap_rule_part_at(
    src: Seq<u8>,
    ts: Seq<Cursor>,
    p: int,
    q: int,
    which: int,
    w: LineWidth,
    s: LineStyle,
    c: Seq<Cursor>,
) -> bool {
    if which == 0 {
        &&& LineWidth::spec_parse(src, ts, p) == Ok::<(LineWidth, int), ParseError>((w, q))
        &&& !LineStyle::spec_peek(src, ts, p)
        &&& !Color::spec_peek(src, ts, p)
    } else if which == 1 {
        &&& LineStyle::spec_parse(src, ts, p) == Ok::<(LineStyle, int), ParseError>((s, q))
        &&& !LineWidth::spec_peek(src, ts, p)
        &&& !Color::spec_peek(src, ts, p)
    } else {
        &&& Color::spec_parse(src, ts, p) == Ok::<(Seq<Cursor>, int), ParseError>((c, q))
        &&& !LineWidth::spec_peek(src, ts, p)
        &&& !LineStyle::spec_peek(src, ts, p)
    }
}

pub open spec fn with_part(
    v: (Option<LineWidth>, Option<LineStyle>, Option<Seq<Cursor>>),
    which: int,
    w: LineWidth,
    s: LineStyle,
    c: Seq<Cursor>,
) -> (Option<LineWidth>, Option<LineStyle>, Option<Seq<Cursor>>) {
    if which == 0 {
        (Some(w), v.1, v.2)
    } else if which == 1 {
        (v.0, Some(s), v.2)
    } else {
        (v.0, v.1, Some(c))
    }
}

pub open spec fn part_missing(v: (Option<LineWidth>, Option<LineStyle>, Option<Seq<Cursor>>), which: int) -> bool {
    if which == 0 {
        v.0 is None
    } else if which == 1 {
        v.1 is None
    } else {
        v.2 is None
    }
}

proof fn lemma_gap_rule_step(
    src: Seq<u8>,
    ts: Seq<Cursor>,
    p: int,
    q: int,
    which: int,
    w: LineWidth,
    s: LineStyle,
    c: Seq<Cursor>,
    v: (Option<LineWidth>, Option<LineStyle>, Option<Seq<Cursor>>),
)
    requires
        0 <= p <= ts.len(),
        0 <= which < 3,
        gap_rule_part_at(src, ts, p, q, which, w, s, c),
        part_missing(v, which),
    ensures
        p < q <= ts.len(),
        gap_rule_from(src, ts, p, v.0, v.1, v.2) == gap_rule_from(
            src,
            ts,
            q,
            with_part(v, which, w, s, c).0,
            with_part(v, which, w, s, c).1,
            with_part(v, which, w, s, c).2,
        ),
{
    LineWidth::lemma_parse_implies_peek(src, ts, p);
    LineStyle::lemma_parse_implies_peek(src, ts, p);
    Color::lemma_parse_implies_peek(src, ts, p);
    LineWidth::lemma_parse_advances(src, ts, p);
    LineStyle::lemma_parse_advances(src, ts, p);
    Color::lemma_parse_advances(src, ts, p);
}

/// The parts of a gap rule may come in any order: when a width, a style and
/// a color follow one another from `p0` in any of the six orders (`o0`,
/// `o1`, `o2` naming the part at each place), each where no other part could
/// start, the gap rule reads all three, ends after the last, and gives the
/// same width, style and color whatever the order.
pub proof fn lemma_gap_rule_any_order(
    src: Seq<u8>,
    ts: Seq<Cursor>,
    p0: int,
    p1: int,
    p2: int,
    p3: int,
    o0: int,
    o1: int,
    o2: int,
    w: LineWidth,
    s: LineStyle,
    c: Seq<Cursor>,
)
    requires
        0 <= p0 <= ts.len(),
        0 <= o0 < 3 && 0 <= o1 < 3 && 0 <= o2 < 3,
        o0 != o1 && o0 != o2 && o1 != o2,
        gap_rule_part_at(src, ts, p0, p1, o0, w, s, c),
        gap_rule_part_at(src, ts, p1, p2, o1, w, s, c),
        gap_rule_part_at(src, ts, p2, p3, o2, w, s, c),
    ensures
        GapRule::spec_parse(src, ts, p0) == Ok::<
            ((Option<LineWidth>, Option<LineStyle>, Option<Seq<Cursor>>), int),
            ParseError,
        >(((Some(w), Some(s), Some(c)), p3)),
{
    let v0: (Option<LineWidth>, Option<LineStyle>, Option<Seq<Cursor>>) = (None, None, None);
    lemma_gap_rule_step(src, ts, p0, p1, o0, w, s, c, v0);
    let v1 = with_part(v0, o0, w, s, c);
    lemma_gap_rule_step(src, ts, p1, p2, o1, w, s, c, v1);
    let v2 = with_part(v1, o1, w, s, c);
    lemma_gap_rule_step(src, ts, p2, p3, o2, w, s, c, v2);
    let v3 = with_part(v2, o2, w, s, c);
    assert(v3 == (Some(w), Some(s), Some(c)));
}


/// Each of the `<line-width>` keywords thin, medium and thick, in any ASCII
/// case, is a line width.
pub proof fn lemma_line_width_keywords(src: Seq<u8>, ts: Seq<Cursor>, i: int)
    requires
        0 <= i < ts.len(),
        ts[i].kind == TokenKind::Ident,
        in_list(ident_text(src, ts[i]), seq!["thin", "medium", "thick"]),
    ensures
        LineWidth::spec_parse(src, ts, i) == Ok::<(LineWidth, int), ParseError>((LineWidth(ts[i]), i + 1)),
{
}

/// Each named color, `transparent`, `currentcolor` and each system color, in
/// any ASCII case, is a color of one token.
pub proof fn lemma_color_keywords(src: Seq<u8>, ts: Seq<Cursor>, i: int)
    requires
        0 <= i < ts.len(),
        ts[i].kind == TokenKind::Ident,
        in_list(
            ident_text(src, ts[i]),
            seq![
            "aliceblue", "antiquewhite", "aqua", "aquamarine", "azure", "beige", "bisque",
            "black", "blanchedalmond", "blue", "blueviolet", "brown", "burlywood", "cadetblue",
            "chartreuse", "chocolate", "coral", "cornflowerblue", "cornsilk", "crimson", "cyan",
            "darkblue", "darkcyan", "darkgoldenrod", "darkgray", "darkgreen", "darkgrey",
            "darkkhaki", "darkmagenta", "darkolivegreen", "darkorange", "darkorchid", "darkred",
            "darksalmon", "darkseagreen", "darkslateblue", "darkslategray", "darkslategrey",
            "darkturquoise", "darkviolet", "deeppink", "deepskyblue", "dimgray", "dimgrey",
            "dodgerblue", "firebrick", "floralwhite", "forestgreen", "fuchsia", "gainsboro",
            "ghostwhite", "gold", "goldenrod", "gray", "green", "greenyellow", "grey",
            "honeydew", "hotpink", "indianred", "indigo", "ivory", "khaki", "lavender",
            "lavenderblush", "lawngreen", "lemonchiffon", "lightblue", "lightcoral",
            "lightcyan", "lightgoldenrodyellow", "lightgray", "lightgreen", "lightgrey",
            "lightpink", "lightsalmon", "lightseagreen", "lightskyblue", "lightslategray",
            "lightslategrey", "lightsteelblue", "lightyellow", "lime", "limegreen", "linen",
            "magenta", "maroon", "mediumaquamarine", "mediumblue", "mediumorchid",
            "mediumpurple", "mediumseagreen", "mediumslateblue", "mediumspringgreen",
            "mediumturquoise", "mediumvioletred", "midnightblue", "mintcream", "mistyrose",
            "moccasin", "navajowhite", "navy", "oldlace", "olive", "olivedrab", "orange",
            "orangered", "orchid", "palegoldenrod", "palegreen", "paleturquoise",
            "palevioletred", "papayawhip", "peachpuff", "peru", "pink", "plum", "powderblue",
            "purple", "rebeccapurple", "red", "rosybrown", "royalblue", "saddlebrown", "salmon",
            "sandybrown", "seagreen", "seashell", "sienna", "silver", "skyblue", "slateblue",
            "slategray", "slategrey", "snow", "springgreen", "steelblue", "tan", "teal",
            "thistle", "tomato", "turquoise", "violet", "wheat", "white", "whitesmoke",
            "yellow", "yellowgreen", "transparent", "currentcolor", "accentcolor",
            "accentcolortext", "activetext", "buttonborder", "buttonface", "buttontext",
            "canvas", "canvastext", "field", "fieldtext", "graytext", "highlight",
            "highlighttext", "linktext", "mark", "marktext", "selecteditem", "selecteditemtext",
            "visitedtext"
            ],
        ),
    ensures
        Color::spec_parse(src, ts, i) == Ok::<(Seq<Cursor>, int), ParseError>((seq![ts[i]], i + 1)),
{
}

/// A color function (rgb, rgba, hsl, hsla, hwb, lab, lch, oklab, oklch,
/// color, color-mix, light-dark, in any ASCII case) is a color that runs to
/// its matching `)`.
pub proof fn lemma_color_functions(src: Seq<u8>, ts: Seq<Cursor>, i: int)
    requires
        0 <= i < ts.len(),
        ts[i].kind == TokenKind::Function,
        in_list(
            function_name(src, ts[i]),
            seq![
                "rgb", "rgba", "hsl", "hsla", "hwb", "lab", "lch", "oklab", "oklch", "color",
                "color-mix", "light-dark"
            ],
        ),
    ensures
        block_close(ts, i + 1, 0) matches Some(j) ==> Color::spec_parse(src, ts, i) == Ok::<
            (Seq<Cursor>, int),
            ParseError,
        >((ts.subrange(i, j + 1), j + 1)),
{
}

} // verus!

//! Tokens: the kinds that `css_lexer` distinguishes, cursors into the source
//! text, spans, and the tokenizer that turns a source string into the
//! sequence of significant (non-trivia) cursors that the parsers read.
use vstd::prelude::*;
use vstd::string::StringSliceAdditionalSpecFns;
use vstd::utf8::is_char_boundary;

verus! {

/// The kind of a token, as `css_lexer` classifies it.
#[derive(Clone, Copy, Debug, PartialEq, Eq, Structural)]
pub enum TokenKind {
    Eof,
    Whitespace,
    Comment,
    CdcOrCdo,
    Number,
    Dimension,
    Ident,
    Function,
    AtKeyword,
    Hash,
    String,
    Url,
    UnicodeRange,
    Delim,
    Colon,
    Semicolon,
    Comma,
    LeftSquare,
    RightSquare,
    LeftParen,
    RightParen,
    LeftCurly,
    RightCurly,
    /// Any of the lexer's error kinds (a bad string, url, number, ...).
    Bad,
}

/// Whitespace and comments: tokens that the parsers skip.
pub open spec fn is_trivia(k: TokenKind) -> bool {
    k == TokenKind::Whitespace || k == TokenKind::Comment
}

/// The kind that `css_lexer` encodes with the bits `b` (the discriminant of
/// its `Kind` enum); bits that name no kind decode to `Eof`, as in the lexer.
pub open spec fn kind_from_bits(b: u8) -> TokenKind {
    if b == 0x01 {
        TokenKind::Whitespace
    } else if b == 0x02 {
        TokenKind::Comment
    } else if b == 0x03 {
        TokenKind::CdcOrCdo
    } else if b == 0x04 {
        TokenKind::Number
    } else if b == 0x05 {
        TokenKind::Dimension
    } else if b == 0x08 {
        TokenKind::Ident
    } else if b == 0x09 {
        TokenKind::Function
    } else if b == 0x0a {
        TokenKind::AtKeyword
    } else if b == 0x0b {
        TokenKind::Hash
    } else if b == 0x0c {
        TokenKind::String
    } else if b == 0x0d {
        TokenKind::Url
    } else if b == 0x0e {
        TokenKind::UnicodeRange
    } else if b == 0x0f {
        TokenKind::Delim
    } else if b == 0x21 {
        TokenKind::Colon
    } else if b == 0x22 {
        TokenKind::Semicolon
    } else if b == 0x23 {
        TokenKind::Comma
    } else if b == 0x24 {
        TokenKind::LeftSquare
    } else if b == 0x25 {
        TokenKind::RightSquare
    } else if b == 0x26 {
        TokenKind::LeftParen
    } else if b == 0x27 {
        TokenKind::RightParen
    } else if b == 0x28 {
        TokenKind::LeftCurly
    } else if b == 0x29 {
        TokenKind::RightCurly
    } else if b == 0x1e {
        TokenKind::UnicodeRange
    } else if (0x11 <= b <= 0x15) || (0x18 <= b <= 0x1d) || b == 0x1f || (0x31 <= b <= 0x39) {
        TokenKind::Bad
    } else {
        TokenKind::Eof
    }
}

/// Decodes the kind bits that the lexer reports.
pub fn kind_of_bits(b: u8) -> (k: TokenKind)
    ensures
        k == kind_from_bits(b),
{
    if b == 0x01 {
        TokenKind::Whitespace
    } else if b == 0x02 {
        TokenKind::Comment
    } else if b == 0x03 {
        TokenKind::CdcOrCdo
    } else if b == 0x04 {
        TokenKind::Number
    } else if b == 0x05 {
        TokenKind::Dimension
    } else if b == 0x08 {
        TokenKind::Ident
    } else if b == 0x09 {
        TokenKind::Function
    } else if b == 0x0a {
        TokenKind::AtKeyword
    } else if b == 0x0b {
        TokenKind::Hash
    } else if b == 0x0c {
        TokenKind::String
    } else if b == 0x0d {
        TokenKind::Url
    } else if b == 0x0e {
        TokenKind::UnicodeRange
    } else if b == 0x0f {
        TokenKind::Delim
    } else if b == 0x21 {
        TokenKind::Colon
    } else if b == 0x22 {
        TokenKind::Semicolon
    } else if b == 0x23 {
        TokenKind::Comma
    } else if b == 0x24 {
        TokenKind::LeftSquare
    } else if b == 0x25 {
        TokenKind::RightSquare
    } else if b == 0x26 {
        TokenKind::LeftParen
    } else if b == 0x27 {
        TokenKind::RightParen
    } else if b == 0x28 {
        TokenKind::LeftCurly
    } else if b == 0x29 {
        TokenKind::RightCurly
    } else if b == 0x1e {
        TokenKind::UnicodeRange
    } else if (0x11 <= b && b <= 0x15) || (0x18 <= b && b <= 0x1d) || b == 0x1f || (0x31 <= b
        && b <= 0x39) {
        TokenKind::Bad
    } else {
        TokenKind::Eof
    }
}

/// A token together with its place in the source text: `offset` and `len`
/// are in bytes; `num_len` is, for numbers and dimensions, the length of the
/// numeric part (a dimension's unit follows it), and 0 for other kinds;
/// `bits` is the token as the lexer encodes it (kind, flags, and for numbers
/// their value), so that two cursors are equal exactly when the lexer's are.
#[derive(Clone, Copy, Debug, PartialEq, Eq, Structural)]
pub struct Cursor {
    pub kind: TokenKind,
    pub offset: u32,
    pub len: u32,
    pub num_len: u32,
    pub bits: u64,
}

impl View for Cursor {
    type V = Cursor;

    open spec fn view(&self) -> Cursor {
        *self
    }
}

impl Cursor {
    /// The byte offset just past the token.
    pub open spec fn end(self) -> int {
        self.offset + self.len
    }
}

/// A half-open byte range `[start, end)` of the source text. `DUMMY` (both
/// ends `u32::MAX`) stands for "no span" and is the unit of `union`.
#[derive(Clone, Copy, Debug, PartialEq, Eq, Structural)]
pub struct Span {
    pub start: u32,
    pub end: u32,
}

pub open spec fn dummy_span() -> Span {
    Span { start: 0xffff_ffff, end: 0xffff_ffff }
}

/// The smallest span that covers both (a dummy span is ignored).
pub open spec fn span_union(a: Span, b: Span) -> Span {
    if b == dummy_span() {
        a
    } else if a == dummy_span() {
        b
    } else {
        Span {
            start: if a.start <= b.start { a.start } else { b.start },
            end: if a.end >= b.end { a.end } else { b.end },
        }
    }
}

/// The span of a single cursor (the offsets saturate at `u32::MAX`).
pub open spec fn cursor_span(c: Cursor) -> Span {
    Span { start: c.offset, end: if c.end() <= 0xffff_ffff { c.end() as u32 } else { 0xffff_ffff } }
}

impl Span {
    /// The span that stands for no source text.
    pub fn dummy() -> (s: Span)
        ensures
            s == dummy_span(),
    {
        Span { start: 0xffff_ffff, end: 0xffff_ffff }
    }

    /// The smallest span that covers `self` and `other`.
    pub fn union(self, other: Span) -> (s: Span)
        ensures
            s == span_union(self, other),
    {
        if other == Span::dummy() {
            self
        } else if self == Span::dummy() {
            other
        } else {
            Span {
                start: if self.start <= other.start { self.start } else { other.start },
                end: if self.end >= other.end { self.end } else { other.end },
            }
        }
    }

    /// The span of one cursor.
    pub fn of(c: Cursor) -> (s: Span)
        ensures
            s == cursor_span(c),
    {
        let end: u64 = c.offset as u64 + c.len as u64;
        Span { start: c.offset, end: if end <= 0xffff_ffff { end as u32 } else { 0xffff_ffff } }
    }
}

/// Tokens as the tokenizer produces them: each is non-empty and ends within
/// the `u32` range, and each ends at or before the next one starts.
pub open spec fn tokens_ordered(ts: Seq<Cursor>) -> bool {
    &&& forall|k: int| 0 <= k < ts.len() ==> #[trigger] ts[k].len > 0 && ts[k].end() <= u32::MAX
    &&& forall|a: int, b: int| 0 <= a < b < ts.len() ==> #[trigger] ts[a].end() <= #[trigger] ts[b].offset
}

/// The span from the start of token `a` to the end of token `b - 1`.
pub open spec fn range_span(ts: Seq<Cursor>, a: int, b: int) -> Span {
    Span { start: ts[a].offset, end: ts[b - 1].end() as u32 }
}

/// Union has "no span" as its unit, and is commutative and associative.
pub proof fn lemma_span_union_laws(a: Span, b: Span, c: Span)
    ensures
        span_union(a, dummy_span()) == a,
        span_union(dummy_span(), a) == a,
        span_union(a, a) == a,
        span_union(a, b) == span_union(b, a),
        span_union(span_union(a, b), c) == span_union(a, span_union(b, c)),
{
}

/// The spans of two ranges of ordered tokens, one before the other, join to
/// the span of the whole, in either order.
pub proof fn lemma_range_span_union(ts: Seq<Cursor>, a: int, b: int, c: int, d: int)
    requires
        tokens_ordered(ts),
        0 <= a < b <= c < d <= ts.len(),
    ensures
        span_union(range_span(ts, a, b), range_span(ts, c, d)) == range_span(ts, a, d),
        span_union(range_span(ts, c, d), range_span(ts, a, b)) == range_span(ts, a, d),
        range_span(ts, a, b) != dummy_span(),
{
    assert(ts[a].len > 0 && ts[a].end() <= u32::MAX);
    assert(ts[c].len > 0 && ts[c].end() <= u32::MAX);
    assert(ts[b - 1].len > 0 && ts[b - 1].end() <= u32::MAX);
    assert(ts[d - 1].len > 0 && ts[d - 1].end() <= u32::MAX);
    if a < c {
        assert(ts[a].end() <= ts[c].offset);
    }
    if b - 1 < d - 1 {
        assert(ts[b - 1].end() <= ts[d - 1].offset);
    }
}

/// A single token's span is the span of its one-token range.
pub proof fn lemma_cursor_span_range(ts: Seq<Cursor>, k: int)
    requires
        tokens_ordered(ts),
        0 <= k < ts.len(),
    ensures
        cursor_span(ts[k]) == range_span(ts, k, k + 1),
        range_span(ts, k, k + 1) != dummy_span(),
        span_union(range_span(ts, k, k + 1), range_span(ts, k, k + 1)) == range_span(ts, k, k + 1),
{
    assert(ts[k].len > 0 && ts[k].end() <= u32::MAX);
}

/// A byte that can be part of the numeric part of a number token: a digit,
/// a sign, a decimal point, or an exponent mark.
pub open spec fn is_number_byte(b: u8) -> bool {
    (0x30 <= b <= 0x39) || b == 0x2b || b == 0x2d || b == 0x2e || b == 0x45 || b == 0x65
}

/// The longest numeric part that `css_lexer` can give a dimension.
pub const MAX_NUMERIC_LEN: usize = 4097;

/// The bytes `[a, a + MAX_NUMERIC_LEN + 1)` are all number bytes.
pub open spec fn long_number_run_at(bytes: Seq<u8>, a: int) -> bool {
    forall|k: int| a <= k < a + MAX_NUMERIC_LEN + 1 ==> is_number_byte(#[trigger] bytes[k])
}

/// The source texts that `css_lexer` reads without failing one of its own
/// assertions: offsets fit in a `u32`; no run of number bytes is longer than
/// the longest numeric part a dimension can hold (the lexer asserts that
/// bound when it builds a dimension); and every `#` lies fewer than 2^24
/// bytes before the end of the text (the lexer asserts that a hash token is
/// shorter than 2^24 bytes, and a hash token runs from its `#` to at most
/// the end of the text).
pub open spec fn within_lexer_limits(bytes: Seq<u8>) -> bool {
    &&& bytes.len() <= u32::MAX
    &&& forall|a: int|
        0 <= a && a + MAX_NUMERIC_LEN + 1 <= bytes.len() ==> !#[trigger] long_number_run_at(bytes, a)
    &&& forall|p: int| 0 <= p < bytes.len() && #[trigger] bytes[p] == 0x23 ==> bytes.len() - p < 0x100_0000
}

/// Whether `source` is within the limits of the lexer, so that it can be
/// tokenized and parsed.
pub fn check_lexer_limits(source: &str) -> (b: bool)
    ensures
        b == within_lexer_limits(source.spec_bytes()),
{
    let bytes = source.as_bytes();
    let n: usize = bytes.len();
    if n as u64 > 0xffff_ffff {
        return false;
    }
    let mut run: usize = 0;
    let mut k: usize = 0;
    while k < n
        invariant
            bytes@ == source.spec_bytes(),
            n == bytes@.len(),
            n <= u32::MAX,
            k <= n,
            run <= k,
            run <= MAX_NUMERIC_LEN,
            forall|j: int| k - run <= j < k ==> is_number_byte(#[trigger] bytes@[j]),
            k - run > 0 ==> !is_number_byte(bytes@[k - run - 1]),
            forall|a: int| 0 <= a && a + MAX_NUMERIC_LEN + 1 <= k ==> !#[trigger] long_number_run_at(bytes@, a),
            forall|p: int| 0 <= p < k && #[trigger] bytes@[p] == 0x23 ==> n - p < 0x100_0000,
        decreases n - k,
    {
        let b = bytes[k];
        if b == 0x23 && n - k >= 0x100_0000 {
            return false;
        }
        if (0x30 <= b && b <= 0x39) || b == 0x2b || b == 0x2d || b == 0x2e || b == 0x45 || b == 0x65 {
            if run == MAX_NUMERIC_LEN {
                proof {
                    let a = k - MAX_NUMERIC_LEN;
                    assert(long_number_run_at(bytes@, a as int));
                }
                return false;
            }
            run = run + 1;
        } else {
            run = 0;
        }
        proof {
            let a = k + 1 - (MAX_NUMERIC_LEN + 1);
            if a >= 0 {
                if !is_number_byte(b) {
                    assert(!is_number_byte(bytes@[k as int]));
                } else {
                    assert(!is_number_byte(bytes@[k - run]));
                }
            }
        }
        k = k + 1;
    }
    true
}

/// What `css_lexer` reads at byte `offset` of `source`: the token's kind
/// bits, its length in bytes, the length of its numeric part (0 for tokens
/// that are not numbers or dimensions), and the token's encoding.
pub uninterp spec fn lexed_token(source: Seq<char>, offset: int) -> (u8, u32, u32, u64);

/// Calls `css_lexer::Lexer::advance` on a lexer (default features, the
/// empty atom set) placed at `offset` with `Lexer::hop`, and reports the
/// token's `Kind` as its `u8` discriminant, `Token::len`, for numbers and
/// dimensions `Token::numeric_len` (0 for other kinds, on which that method
/// asserts), and `Token::to_bits`. The contract names the result
/// (`lexed_token`): the lexer reads the bytes from `offset` on and nothing
/// else, so the result depends on the source and the offset alone. What the
/// lexer's tokenization is, is not stated. The source must be within the
/// lexer's limits (`within_lexer_limits`): beyond them the lexer fails one
/// of its own assertions (offsets kept in a `u32`, a dimension's numeric
/// part of at most 4097 bytes, a hash token shorter than 2^24 bytes).
#[verifier::external_body]
fn lex_token_at(source: &str, offset: u32) -> (r: (u8, u32, u32, u64))
    requires
        within_lexer_limits(source.spec_bytes()),
        offset <= source.spec_bytes().len(),
        is_char_boundary(source.spec_bytes(), offset as int),
    ensures
        r == lexed_token(source@, offset as int),
{
    let mut lexer = css_lexer::Lexer::new(&css_lexer::EmptyAtomSet::ATOMS, source);
    lexer.hop(css_lexer::Cursor::new(css_lexer::SourceOffset(offset), css_lexer::Token::default()));
    let token = lexer.advance();
    let num_len = match token.kind() {
        css_lexer::Kind::Number => token.numeric_len(),
        css_lexer::Kind::Dimension => token.numeric_len(),
        _ => 0,
    };
    (token.kind() as u8, token.len(), num_len, token.to_bits())
}

/// The significant cursors of the source text from byte `offset` on: the
/// lexer is asked for one token after another, each starting where the last
/// one ended; whitespace and comments are left out. Scanning stops at the end
/// of the text (or if the lexer ever reported an empty token, or one that ends
/// past the text or inside a character, which it does not do).
pub open spec fn scan_from(source: Seq<char>, bytes: Seq<u8>, offset: int) -> Seq<Cursor>
    decreases bytes.len() - offset,
{
    if offset < 0 || offset >= bytes.len() || !is_char_boundary(bytes, offset) {
        Seq::empty()
    } else {
        let (k, len, num_len, bits) = lexed_token(source, offset);
        let kind = kind_from_bits(k);
        if len == 0 || offset + len > bytes.len() || kind == TokenKind::Eof {
            Seq::empty()
        } else {
            let rest = scan_from(source, bytes, offset + len);
            if is_trivia(kind) {
                rest
            } else {
                seq![Cursor { kind, offset: offset as u32, len, num_len, bits }] + rest
            }
        }
    }
}

/// The tokens scanned from `offset` on start at or after it, are non-empty,
/// and follow one another in order.
pub proof fn lemma_scan_from_ordered(source: Seq<char>, bytes: Seq<u8>, offset: int)
    requires
        0 <= offset,
        bytes.len() <= u32::MAX,
    ensures
        tokens_ordered(scan_from(source, bytes, offset)),
        forall|k: int|
            0 <= k < scan_from(source, bytes, offset).len() ==> #[trigger] scan_from(
                source,
                bytes,
                offset,
            )[k].offset >= offset,
    decreases bytes.len() - offset,
{
    if !(offset >= bytes.len() || !is_char_boundary(bytes, offset)) {
        let (k, len, num_len, bits) = lexed_token(source, offset);
        let kind = kind_from_bits(k);
        if !(len == 0 || offset + len > bytes.len() || kind == TokenKind::Eof) {
            lemma_scan_from_ordered(source, bytes, offset + len);
            let rest = scan_from(source, bytes, offset + len);
            if !is_trivia(kind) {
                let t = Cursor { kind, offset: offset as u32, len, num_len, bits };
                let all = seq![t] + rest;
                assert(all == scan_from(source, bytes, offset));
                assert forall|a: int, b: int| 0 <= a < b < all.len() implies #[trigger] all[a].end()
                    <= #[trigger] all[b].offset by {
                    if a == 0 {
                        assert(all[b] == rest[b - 1]);
                    } else {
                        assert(all[a] == rest[a - 1]);
                        assert(all[b] == rest[b - 1]);
                    }
                }
                assert forall|a: int| 0 <= a < all.len() implies #[trigger] all[a].len > 0
                    && all[a].end() <= u32::MAX by {
                    if a > 0 {
                        assert(all[a] == rest[a - 1]);
                    }
                }
                assert forall|a: int| 0 <= a < all.len() implies #[trigger] all[a].offset >= offset by {
                    if a > 0 {
                        assert(all[a] == rest[a - 1]);
                    }
                }
            }
        }
    }
}

/// The tokens of a source text are ordered.
pub proof fn lemma_tokenize_ordered(source: &str)
    requires
        source.spec_bytes().len() <= u32::MAX,
    ensures
        tokens_ordered(spec_tokenize(source)),
{
    lemma_scan_from_ordered(source@, source.spec_bytes(), 0);
}

/// The significant tokens of a source text.
pub open spec fn spec_tokenize(source: &str) -> Seq<Cursor> {
    scan_from(source@, source.spec_bytes(), 0)
}

/// Splits `source` into its significant tokens (whitespace and comments are
/// skipped, as the parser skips them).
pub fn tokenize(source: &str) -> (ts: Vec<Cursor>)
    requires
        within_lexer_limits(source.spec_bytes()),
    ensures
        ts@ == spec_tokenize(source),
{
    let bytes = source.as_bytes();
    let n: usize = bytes.len();
    let mut ts: Vec<Cursor> = Vec::new();
    let mut offset: usize = 0;
    let mut done = false;
    while !done && offset < n && source.is_char_boundary(offset)
        invariant
            bytes@ == source.spec_bytes(),
            n == bytes@.len(),
            n <= u32::MAX,
            within_lexer_limits(source.spec_bytes()),
            offset <= n,
            !done ==> ts@ + scan_from(source@, bytes@, offset as int) == spec_tokenize(source),
            done ==> ts@ == spec_tokenize(source),
        decreases n - offset + (if done { 0int } else { 1int }),
    {
        let (k, len, num_len, bits) = lex_token_at(source, offset as u32);
        let kind = kind_of_bits(k);
        if len == 0 || len as usize > n - offset || kind == TokenKind::Eof {
            proof {
                assert(scan_from(source@, bytes@, offset as int) == Seq::<Cursor>::empty());
                assert(ts@ + Seq::<Cursor>::empty() == ts@);
            }
            done = true;
        } else {
            let ghost old_ts = ts@;
            let c = Cursor { kind, offset: offset as u32, len, num_len, bits };
            if !(kind == TokenKind::Whitespace || kind == TokenKind::Comment) {
                ts.push(c);
                proof {
                    assert(old_ts + (seq![c] + scan_from(source@, bytes@, offset + len)) == old_ts
                        + seq![c] + scan_from(source@, bytes@, offset + len));
                }
            }
            offset = offset + len as usize;
        }
    }
    proof {
        if !done {
            assert(scan_from(source@, bytes@, offset as int) == Seq::<Cursor>::empty());
            assert(ts@ + Seq::<Cursor>::empty() == ts@);
        }
    }
    ts
}

} // verus!

//! Keyword matching on the source text of a token: escapes are replaced by
//! what they stand for, and CSS keywords compare ASCII case-insensitively. The keyword lists of the value types that a gap
//! rule is made of live here too.
use vstd::prelude::*;
use vstd::string::StringSliceAdditionalSpecFns;

verus! {

/// ASCII lower-casing of one character code.
pub open spec fn ascii_lower(c: u32) -> u32 {
    if 0x41 <= c <= 0x5a {
        (c + 32) as u32
    } else {
        c
    }
}

/// The bytes `[start, end)` of `src`, or nothing when that range does not lie
/// within `src`.
pub open spec fn text_of(src: Seq<u8>, start: int, end: int) -> Seq<u8> {
    if 0 <= start <= end <= src.len() {
        src.subrange(start, end)
    } else {
        Seq::empty()
    }
}

/// Whitespace as CSS counts it: space, tab, line feed, form feed, carriage return.
pub open spec fn is_css_whitespace(b: u8) -> bool {
    b == 0x20 || b == 0x09 || b == 0x0a || b == 0x0c || b == 0x0d
}

/// The value of a hexadecimal digit.
pub open spec fn hex_digit_value(b: u8) -> int {
    if 0x30 <= b <= 0x39 {
        b - 0x30
    } else if 0x41 <= b <= 0x46 {
        b - 0x37
    } else {
        b - 0x57
    }
}

/// The number of hexadecimal digits (at most `cap`) from position `k` on.
pub open spec fn hex_run(t: Seq<u8>, k: int, cap: nat) -> nat
    decreases cap,
{
    if cap == 0 || k < 0 || k >= t.len() || !is_hex_digit(t[k]) {
        0
    } else {
        1 + hex_run(t, k + 1, (cap - 1) as nat)
    }
}

/// The hexadecimal digits counted from `k` on lie within `t`.
pub proof fn lemma_hex_run_bound(t: Seq<u8>, k: int, cap: nat)
    requires
        0 <= k,
    ensures
        k + hex_run(t, k, cap) <= t.len() || hex_run(t, k, cap) == 0,
    decreases cap,
{
    if cap > 0 && k < t.len() && is_hex_digit(t[k]) {
        lemma_hex_run_bound(t, k + 1, (cap - 1) as nat);
    }
}

/// The value of the `n` hexadecimal digits from position `k` on.
pub open spec fn hex_number(t: Seq<u8>, k: int, n: nat) -> int
    decreases n,
{
    if n == 0 {
        0
    } else {
        hex_number(t, k, (n - 1) as nat) * 16 + hex_digit_value(t[k + n - 1])
    }
}

pub open spec fn pow16(n: nat) -> int
    decreases n,
{
    if n == 0 {
        1
    } else {
        16 * pow16((n - 1) as nat)
    }
}

/// The character an escape with the value `v` stands for: zero, surrogates
/// and values past the last code point stand for U+FFFD.
pub open spec fn escaped_code_point(v: int) -> u32 {
    if v == 0 || (0xD800 <= v <= 0xDFFF) || v > 0x10FFFF {
        0xFFFD
    } else {
        v as u32
    }
}

/// The whitespace that ends a hexadecimal escape at position `k`: one
/// whitespace character, a CR LF pair counting as one.
pub open spec fn escape_whitespace_len(t: Seq<u8>, k: int) -> int {
    if 0 <= k < t.len() && is_css_whitespace(t[k]) {
        if t[k] == 0x0d && k + 1 < t.len() && t[k + 1] == 0x0a {
            2
        } else {
            1
        }
    } else {
        0
    }
}

/// The text from position `k` on with its escapes replaced by what they
/// stand for: `\` and one to six hexadecimal digits (and one whitespace
/// after them) stand for the character with that value; `\` and any other
/// byte stand for that byte; a `\` at the end, and a NUL byte, stand for
/// U+FFFD. This text is compared with ASCII keywords only, so a non-ASCII
/// character is kept as its UTF-8 bytes, none of which is ASCII.
pub open spec fn unescape_from(t: Seq<u8>, k: int) -> Seq<u32>
    decreases t.len() - k,
{
    if k < 0 || k >= t.len() {
        Seq::empty()
    } else if t[k] == 0x5c {
        if k + 1 >= t.len() {
            seq![0xFFFDu32]
        } else if is_hex_digit(t[k + 1]) {
            let n = hex_run(t, k + 1, 6);
            let e = k + 1 + n;
            proof {
                assert(n == 1 + hex_run(t, k + 2, 5));
                lemma_hex_run_bound(t, k + 2, 5);
            }
            seq![escaped_code_point(hex_number(t, k + 1, n))] + unescape_from(
                t,
                e + escape_whitespace_len(t, e),
            )
        } else {
            seq![t[k + 1] as u32] + unescape_from(t, k + 2)
        }
    } else if t[k] == 0 {
        seq![0xFFFDu32] + unescape_from(t, k + 1)
    } else {
        seq![t[k] as u32] + unescape_from(t, k + 1)
    }
}

/// A token's text with its escapes replaced by what they stand for.
pub open spec fn unescape(t: Seq<u8>) -> Seq<u32> {
    unescape_from(t, 0)
}

/// `text` equals the (lower-case) keyword `kw`, ignoring ASCII case.
pub open spec fn eq_ignore_case(text: Seq<u32>, kw: Seq<u8>) -> bool {
    text.len() == kw.len() && forall|i: int| 0 <= i < text.len() ==> ascii_lower(#[trigger] text[i]) == kw[i]
}

/// `text` is one of the keywords of `list`, ignoring ASCII case.
pub open spec fn in_list(text: Seq<u32>, list: Seq<&str>) -> bool {
    exists|i: int| 0 <= i < list.len() && eq_ignore_case(text, #[trigger] list[i].spec_bytes())
}

/// Reads the hexadecimal digits (at most six) from position `k` on: how
/// many there are, and their value.
fn read_hex(t: &[u8], k: usize) -> (r: (usize, u32))
    requires
        k <= t@.len(),
    ensures
        r.0 == hex_run(t@, k as int, 6),
        r.1 == hex_number(t@, k as int, r.0 as nat),
        k + r.0 <= t@.len(),
{
    let mut n: usize = 0;
    let mut v: u32 = 0;
    proof {
        reveal_with_fuel(pow16, 7);
    }
    while n < 6 && n < t.len() - k && ((0x30 <= t[k + n] && t[k + n] <= 0x39) || (0x41 <= t[k + n]
        && t[k + n] <= 0x46) || (0x61 <= t[k + n] && t[k + n] <= 0x66))
        invariant
            k <= t@.len(),
            n <= 6,
            k + n <= t@.len(),
            hex_run(t@, k as int, 6) == n + hex_run(t@, k + n, (6 - n) as nat),
            v == hex_number(t@, k as int, n as nat),
            v < pow16(n as nat),
            pow16(6) == 0x1000000,
            pow16(5) == 0x100000,
            n <= 5 ==> pow16(n as nat) <= pow16(5),
        decreases 6 - n,
    {
        let b = t[k + n];
        let d: u32 = if b <= 0x39 {
            (b - 0x30) as u32
        } else if b <= 0x46 {
            (b - 0x37) as u32
        } else {
            (b - 0x57) as u32
        };
        assert(pow16((n + 1) as nat) == 16 * pow16(n as nat));
        v = v * 16 + d;
        n = n + 1;
        proof {
            if n <= 5 {
                assert(pow16(n as nat) <= pow16(5)) by {
                    reveal_with_fuel(pow16, 7);
                }
            }
        }
    }
    (n, v)
}

/// The text `t` with its escapes replaced by what they stand for.
pub fn unescape_exec(t: &[u8]) -> (r: Vec<u32>)
    ensures
        r@ == unescape(t@),
{
    let n = t.len();
    let mut out: Vec<u32> = Vec::new();
    let mut k: usize = 0;
    while k < n
        invariant
            n == t@.len(),
            k <= n,
            out@ + unescape_from(t@, k as int) == unescape(t@),
        decreases n - k,
    {
        let ghost before = out@;
        let b = t[k];
        if b == 0x5c {
            if k + 1 >= n {
                out.push(0xFFFD);
                proof {
                    assert(unescape_from(t@, n as int) == Seq::<u32>::empty());
                    assert(before + unescape_from(t@, k as int) == out@ + unescape_from(t@, n as int));
                }
                k = n;
            } else {
                let c = t[k + 1];
                if (0x30 <= c && c <= 0x39) || (0x41 <= c && c <= 0x46) || (0x61 <= c && c <= 0x66) {
                    let (h, v) = read_hex(t, k + 1);
                    let e = k + 1 + h;
                    let ws: usize = if e < n && (t[e] == 0x20 || t[e] == 0x09 || t[e] == 0x0a || t[e]
                        == 0x0c || t[e] == 0x0d) {
                        if t[e] == 0x0d && e + 1 < n && t[e + 1] == 0x0a {
                            2
                        } else {
                            1
                        }
                    } else {
                        0
                    };
                    let cp: u32 = if v == 0 || (0xD800 <= v && v <= 0xDFFF) || v > 0x10FFFF {
                        0xFFFD
                    } else {
                        v
                    };
                    out.push(cp);
                    proof {
                        let rest = unescape_from(t@, (e + ws) as int);
                        assert(unescape_from(t@, k as int) == seq![cp] + rest);
                        assert(before + (seq![cp] + rest) == out@ + rest);
                    }
                    k = e + ws;
                } else {
                    out.push(c as u32);
                    proof {
                        let rest = unescape_from(t@, k + 2);
                        assert(before + (seq![c as u32] + rest) == out@ + rest);
                    }
                    k = k + 2;
                }
            }
        } else {
            let cp: u32 = if b == 0 {
                0xFFFD
            } else {
                b as u32
            };
            out.push(cp);
            proof {
                let rest = unescape_from(t@, k + 1);
                assert(before + (seq![cp] + rest) == out@ + rest);
            }
            k = k + 1;
        }
    }
    proof {
        assert(unescape_from(t@, k as int) == Seq::<u32>::empty());
        assert(out@ + Seq::<u32>::empty() == out@);
    }
    out
}

/// Compares the character codes `text` with the keyword `kw`.
pub fn codes_eq_ignore_case(text: &Vec<u32>, kw: &str) -> (b: bool)
    ensures
        b == eq_ignore_case(text@, kw.spec_bytes()),
{
    let k = kw.as_bytes();
    if text.len() != k.len() {
        return false;
    }
    let mut i: usize = 0;
    while i < k.len()
        invariant
            k@ == kw.spec_bytes(),
            text@.len() == k@.len(),
            i <= k@.len(),
            forall|j: int| 0 <= j < i ==> ascii_lower(#[trigger] text@[j]) == k@[j],
        decreases k@.len() - i,
    {
        let c = text[i];
        let lower = if 0x41 <= c && c <= 0x5a {
            c + 32
        } else {
            c
        };
        if lower != k[i] as u32 {
            assert(ascii_lower(text@[i as int]) != k@[i as int]);
            return false;
        }
        i = i + 1;
    }
    true
}

/// Whether the character codes `text` are one of the keywords of `list`.
pub fn codes_in_list(text: &Vec<u32>, list: &[&str]) -> (b: bool)
    ensures
        b == in_list(text@, list@),
{
    let mut i: usize = 0;
    while i < list.len()
        invariant
            i <= list@.len(),
            forall|j: int| 0 <= j < i ==> !eq_ignore_case(text@, #[trigger] list@[j].spec_bytes()),
        decreases list@.len() - i,
    {
        if codes_eq_ignore_case(text, list[i]) {
            return true;
        }
        i = i + 1;
    }
    false
}

/// The keywords of `<line-style>`.
pub open spec fn line_style_names() -> Seq<&'static str> {
    seq!["none", "hidden", "dotted", "dashed", "solid", "double", "groove", "ridge", "inset", "outset"]
}

pub fn line_style_list() -> (r: [&'static str; 10])
    ensures
        r@ == line_style_names(),
{
    ["none", "hidden", "dotted", "dashed", "solid", "double", "groove", "ridge", "inset", "outset"]
}



/// The keywords of `<line-width>`.
pub open spec fn line_width_names() -> Seq<&'static str> {
    seq![
        "thin", "medium", "thick"
    ]
}

pub fn line_width_list() -> (r: [&'static str; 3])
    ensures
        r@ == line_width_names(),
{
    [
        "thin", "medium", "thick"
    ]
}

/// The units of `<length>`.
pub open spec fn length_unit_names() -> Seq<&'static str> {
    seq![
        "em", "rem", "ex", "rex", "cap", "rcap", "ch", "rch", "ic", "ric", "lh", "rlh",
        "vw", "svw", "lvw", "dvw", "vh", "svh", "lvh", "dvh", "vi", "svi", "lvi", "dvi",
        "vb", "svb", "lvb", "dvb", "vmin", "svmin", "lvmin", "dvmin", "vmax", "svmax",
        "lvmax", "dvmax", "cqw", "cqh", "cqi", "cqb", "cqmin", "cqmax", "cm", "mm", "q",
        "in", "pt", "pc", "px"
    ]
}

pub fn length_unit_list() -> (r: [&'static str; 49])
    ensures
        r@ == length_unit_names(),
{
    [
        "em", "rem", "ex", "rex", "cap", "rcap", "ch", "rch", "ic", "ric", "lh", "rlh",
        "vw", "svw", "lvw", "dvw", "vh", "svh", "lvh", "dvh", "vi", "svi", "lvi", "dvi",
        "vb", "svb", "lvb", "dvb", "vmin", "svmin", "lvmin", "dvmin", "vmax", "svmax",
        "lvmax", "dvmax", "cqw", "cqh", "cqi", "cqb", "cqmin", "cqmax", "cm", "mm", "q",
        "in", "pt", "pc", "px"
    ]
}

/// The keywords of `<color>`: the named colors, `transparent`, `currentcolor` and the system colors.
pub open spec fn color_names() -> Seq<&'static str> {
    seq![
        "aliceblue", "antiquewhite", "aqua", "aquamarine", "azure", "beige", "bisque",
        "black", "blanchedalmond", "blue", "blueviolet", "brown", "burlywood", "cadetblue",
        "chartreuse", "chocolate", "coral", "cornflowerblue", "cornsilk", "crimson", "cyan",
        "darkblue", "darkcyan", "darkgoldenrod", "darkgray", "darkgreen", "darkgrey",
        "darkkhaki", "darkmagenta", "darkolivegreen", "darkorange", "darkorchid", "darkred",
        "darksalmon", "darkseagreen", "darkslateblue", "darkslategray", "darkslategrey",
        "darkturquoise", "darkviolet", "deeppink", "deepskyblue", "dimgray", "dimgrey",
        "dodgerblue", "firebrick", "floralwhite", "forestgreen", "fuchsia", "gainsboro",
        "ghostwhite", "gold", "goldenrod", "gray", "green", "greenyellow", "grey",
        "honeydew", "hotpink", "indianred", "indigo", "ivory", "khaki", "lavender",
        "lavenderblush", "lawngreen", "lemonchiffon", "lightblue", "lightcoral",
        "lightcyan", "lightgoldenrodyellow", "lightgray", "lightgreen", "lightgrey",
        "lightpink", "lightsalmon", "lightseagreen", "lightskyblue", "lightslategray",
        "lightslategrey", "lightsteelblue", "lightyellow", "lime", "limegreen", "linen",
        "magenta", "maroon", "mediumaquamarine", "mediumblue", "mediumorchid",
        "mediumpurple", "mediumseagreen", "mediumslateblue", "mediumspringgreen",
        "mediumturquoise", "mediumvioletred", "midnightblue", "mintcream", "mistyrose",
        "moccasin", "navajowhite", "navy", "oldlace", "olive", "olivedrab", "orange",
        "orangered", "orchid", "palegoldenrod", "palegreen", "paleturquoise",
        "palevioletred", "papayawhip", "peachpuff", "peru", "pink", "plum", "powderblue",
        "purple", "rebeccapurple", "red", "rosybrown", "royalblue", "saddlebrown", "salmon",
        "sandybrown", "seagreen", "seashell", "sienna", "silver", "skyblue", "slateblue",
        "slategray", "slategrey", "snow", "springgreen", "steelblue", "tan", "teal",
        "thistle", "tomato", "turquoise", "violet", "wheat", "white", "whitesmoke",
        "yellow", "yellowgreen", "transparent", "currentcolor", "accentcolor",
        "accentcolortext", "activetext", "buttonborder", "buttonface", "buttontext",
        "canvas", "canvastext", "field", "fieldtext", "graytext", "highlight",
        "highlighttext", "linktext", "mark", "marktext", "selecteditem", "selecteditemtext",
        "visitedtext"
    ]
}

pub fn color_list() -> (r: [&'static str; 169])
    ensures
        r@ == color_names(),
{
    [
        "aliceblue", "antiquewhite", "aqua", "aquamarine", "azure", "beige", "bisque",
        "black", "blanchedalmond", "blue", "blueviolet", "brown", "burlywood", "cadetblue",
        "chartreuse", "chocolate", "coral", "cornflowerblue", "cornsilk", "crimson", "cyan",
        "darkblue", "darkcyan", "darkgoldenrod", "darkgray", "darkgreen", "darkgrey",
        "darkkhaki", "darkmagenta", "darkolivegreen", "darkorange", "darkorchid", "darkred",
        "darksalmon", "darkseagreen", "darkslateblue", "darkslategray", "darkslategrey",
        "darkturquoise", "darkviolet", "deeppink", "deepskyblue", "dimgray", "dimgrey",
        "dodgerblue", "firebrick", "floralwhite", "forestgreen", "fuchsia", "gainsboro",
        "ghostwhite", "gold", "goldenrod", "gray", "green", "greenyellow", "grey",
        "honeydew", "hotpink", "indianred", "indigo", "ivory", "khaki", "lavender",
        "lavenderblush", "lawngreen", "lemonchiffon", "lightblue", "lightcoral",
        "lightcyan", "lightgoldenrodyellow", "lightgray", "lightgreen", "lightgrey",
        "lightpink", "lightsalmon", "lightseagreen", "lightskyblue", "lightslategray",
        "lightslategrey", "lightsteelblue", "lightyellow", "lime", "limegreen", "linen",
        "magenta", "maroon", "mediumaquamarine", "mediumblue", "mediumorchid",
        "mediumpurple", "mediumseagreen", "mediumslateblue", "mediumspringgreen",
        "mediumturquoise", "mediumvioletred", "midnightblue", "mintcream", "mistyrose",
        "moccasin", "navajowhite", "navy", "oldlace", "olive", "olivedrab", "orange",
        "orangered", "orchid", "palegoldenrod", "palegreen", "paleturquoise",
        "palevioletred", "papayawhip", "peachpuff", "peru", "pink", "plum", "powderblue",
        "purple", "rebeccapurple", "red", "rosybrown", "royalblue", "saddlebrown", "salmon",
        "sandybrown", "seagreen", "seashell", "sienna", "silver", "skyblue", "slateblue",
        "slategray", "slategrey", "snow", "springgreen", "steelblue", "tan", "teal",
        "thistle", "tomato", "turquoise", "violet", "wheat", "white", "whitesmoke",
        "yellow", "yellowgreen", "transparent", "currentcolor", "accentcolor",
        "accentcolortext", "activetext", "buttonborder", "buttonface", "buttontext",
        "canvas", "canvastext", "field", "fieldtext", "graytext", "highlight",
        "highlighttext", "linktext", "mark", "marktext", "selecteditem", "selecteditemtext",
        "visitedtext"
    ]
}

/// The functions of `<color>`.
pub open spec fn color_function_names() -> Seq<&'static str> {
    seq![
        "rgb", "rgba", "hsl", "hsla", "hwb", "lab", "lch", "oklab", "oklch", "color",
        "color-mix", "light-dark"
    ]
}

pub fn color_function_list() -> (r: [&'static str; 12])
    ensures
        r@ == color_function_names(),
{
    [
        "rgb", "rgba", "hsl", "hsla", "hwb", "lab", "lch", "oklab", "oklch", "color",
        "color-mix", "light-dark"
    ]
}


/// The bytes `[start, end)` of `src` (empty when the range is not within `src`).
pub fn range_text(src: &[u8], start: u64, end: u64) -> (t: &[u8])
    ensures
        t@ == text_of(src@, start as int, end as int),
{
    if start <= end && end <= src.len() as u64 {
        vstd::slice::slice_subrange(src, start as usize, end as usize)
    } else {
        vstd::slice::slice_subrange(src, 0, 0)
    }
}

/// Whether the bytes `[start, end)` of `src`, unescaped, are the keyword `kw`.
pub fn range_eq(src: &[u8], start: u64, end: u64, kw: &str) -> (b: bool)
    ensures
        b == eq_ignore_case(unescape(text_of(src@, start as int, end as int)), kw.spec_bytes()),
{
    let t = range_text(src, start, end);
    let codes = unescape_exec(t);
    codes_eq_ignore_case(&codes, kw)
}

/// Whether the bytes `[start, end)` of `src`, unescaped, are one of the
/// keywords of `list`.
pub fn range_in_list(src: &[u8], start: u64, end: u64, list: &[&str]) -> (b: bool)
    ensures
        b == in_list(unescape(text_of(src@, start as int, end as int)), list@),
{
    let t = range_text(src, start, end);
    let codes = unescape_exec(t);
    codes_in_list(&codes, list)
}

pub open spec fn is_digit(b: u8) -> bool {
    0x30 <= b <= 0x39
}

pub open spec fn is_hex_digit(b: u8) -> bool {
    is_digit(b) || (0x41 <= b <= 0x46) || (0x61 <= b <= 0x66)
}

/// The digits of a hex color: 3, 4, 6 or 8 hexadecimal digits.
pub open spec fn is_hex_color_digits(t: Seq<u8>) -> bool {
    (t.len() == 3 || t.len() == 4 || t.len() == 6 || t.len() == 8) && forall|k: int|
        0 <= k < t.len() ==> is_hex_digit(#[trigger] t[k])
}

/// The text of a number without its sign (`+` or `-`), if it has one.
pub open spec fn unsigned_part(t: Seq<u8>) -> Seq<u8> {
    if t.len() > 0 && (t[0] == 0x2b || t[0] == 0x2d) {
        t.drop_first()
    } else {
        t
    }
}

/// An integer of at least 1 written with digits alone (and perhaps a `+`).
pub open spec fn is_positive_integer(t: Seq<u8>) -> bool {
    &&& !(t.len() > 0 && t[0] == 0x2d)
    &&& unsigned_part(t).len() > 0
    &&& forall|k: int| 0 <= k < unsigned_part(t).len() ==> is_digit(#[trigger] unsigned_part(t)[k])
    &&& exists|k: int| 0 <= k < unsigned_part(t).len() && #[trigger] unsigned_part(t)[k] != 0x30
}

/// A number whose value is zero: only `0`s and a decimal point after the sign.
pub open spec fn is_zero_number(t: Seq<u8>) -> bool {
    &&& unsigned_part(t).len() > 0
    &&& forall|k: int|
        0 <= k < unsigned_part(t).len() ==> (#[trigger] unsigned_part(t)[k] == 0x30 || unsigned_part(
            t,
        )[k] == 0x2e)
    &&& exists|k: int| 0 <= k < unsigned_part(t).len() && #[trigger] unsigned_part(t)[k] == 0x30
}

/// A number that is not negative (no leading `-`).
pub open spec fn is_non_negative(t: Seq<u8>) -> bool {
    !(t.len() > 0 && t[0] == 0x2d)
}

fn unsigned_start(t: &[u8]) -> (k: usize)
    ensures
        k <= t@.len(),
        t@.subrange(k as int, t@.len() as int) == unsigned_part(t@),
{
    if t.len() > 0 && (t[0] == 0x2b || t[0] == 0x2d) {
        assert(t@.subrange(1, t@.len() as int) =~= t@.drop_first());
        1
    } else {
        assert(t@.subrange(0, t@.len() as int) =~= t@);
        0
    }
}

pub fn check_hex_color_digits(t: &[u8]) -> (b: bool)
    ensures
        b == is_hex_color_digits(t@),
{
    let n = t.len();
    if !(n == 3 || n == 4 || n == 6 || n == 8) {
        return false;
    }
    let mut k: usize = 0;
    while k < n
        invariant
            n == t@.len(),
            k <= n,
            forall|j: int| 0 <= j < k ==> is_hex_digit(#[trigger] t@[j]),
        decreases n - k,
    {
        let c = t[k];
        if !((0x30 <= c && c <= 0x39) || (0x41 <= c && c <= 0x46) || (0x61 <= c && c <= 0x66)) {
            assert(!is_hex_digit(t@[k as int]));
            return false;
        }
        k = k + 1;
    }
    true
}

pub fn check_positive_integer(t: &[u8]) -> (b: bool)
    ensures
        b == is_positive_integer(t@),
{
    if t.len() > 0 && t[0] == 0x2d {
        return false;
    }
    let s = unsigned_start(t);
    let ghost u = unsigned_part(t@);
    if s == t.len() {
        return false;
    }
    let mut nonzero = false;
    let mut k: usize = s;
    while k < t.len()
        invariant
            s <= k <= t@.len(),
            s < t@.len(),
            u == t@.subrange(s as int, t@.len() as int),
            u == unsigned_part(t@),
            forall|j: int| 0 <= j < k - s ==> is_digit(#[trigger] u[j]),
            nonzero <==> exists|j: int| 0 <= j < k - s && #[trigger] u[j] != 0x30,
        decreases t@.len() - k,
    {
        let c = t[k];
        assert(c == u[k - s]);
        if !(0x30 <= c && c <= 0x39) {
            assert(!is_digit(u[k - s]));
            return false;
        }
        if c != 0x30 {
            nonzero = true;
        }
        k = k + 1;
    }
    nonzero
}

pub fn check_zero_number(t: &[u8]) -> (b: bool)
    ensures
        b == is_zero_number(t@),
{
    let s = unsigned_start(t);
    let ghost u = unsigned_part(t@);
    if s == t.len() {
        return false;
    }
    let mut zero = false;
    let mut k: usize = s;
    while k < t.len()
        invariant
            s <= k <= t@.len(),
            s < t@.len(),
            u == t@.subrange(s as int, t@.len() as int),
            u == unsigned_part(t@),
            forall|j: int| 0 <= j < k - s ==> (#[trigger] u[j] == 0x30 || u[j] == 0x2e),
            zero <==> exists|j: int| 0 <= j < k - s && #[trigger] u[j] == 0x30,
        decreases t@.len() - k,
    {
        let c = t[k];
        assert(c == u[k - s]);
        if !(c == 0x30 || c == 0x2e) {
            assert(!(u[k - s] == 0x30 || u[k - s] == 0x2e));
            return false;
        }
        if c == 0x30 {
            zero = true;
        }
        k = k + 1;
    }
    zero
}

} // verus!

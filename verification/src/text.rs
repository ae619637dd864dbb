use vstd::prelude::*;
use vstd::string::*;
use vstd::utf8::*;

verus! {

// ---------------------------------------------------------------------------
// Trimming
// ---------------------------------------------------------------------------

/// Unicode's White_Space characters, the ones `char::is_whitespace` accepts
/// and `str::trim` removes.
pub open spec fn is_white_space(c: char) -> bool {
    ||| ('\t' <= c <= '\r')
    ||| c == ' '
    ||| c == '\u{85}'
    ||| c == '\u{A0}'
    ||| c == '\u{1680}'
    ||| ('\u{2000}' <= c <= '\u{200A}')
    ||| c == '\u{2028}'
    ||| c == '\u{2029}'
    ||| c == '\u{202F}'
    ||| c == '\u{205F}'
    ||| c == '\u{3000}'
}

/// `s` without its leading white space.
pub open spec fn trim_start_spec(s: Seq<char>) -> Seq<char>
    decreases s.len(),
{
    if s.len() > 0 && is_white_space(s[0]) {
        trim_start_spec(s.drop_first())
    } else {
        s
    }
}

/// `s` without its trailing white space.
pub open spec fn trim_end_spec(s: Seq<char>) -> Seq<char>
    decreases s.len(),
{
    if s.len() > 0 && is_white_space(s.last()) {
        trim_end_spec(s.drop_last())
    } else {
        s
    }
}

/// `s` without leading and trailing white space.
pub open spec fn trim_spec(s: Seq<char>) -> Seq<char> {
    trim_end_spec(trim_start_spec(s))
}

/// `s` without its leading `'#'` characters.
pub open spec fn strip_hashes_spec(s: Seq<char>) -> Seq<char>
    decreases s.len(),
{
    if s.len() > 0 && s[0] == '#' {
        strip_hashes_spec(s.drop_first())
    } else {
        s
    }
}

/// Whether `c` is white space in the sense of `is_white_space`.
fn white_space(c: char) -> (b: bool)
    ensures
        b == is_white_space(c),
{
    ('\t' <= c && c <= '\r') || c == ' ' || c == '\u{85}' || c == '\u{A0}' || c == '\u{1680}' || (
    '\u{2000}' <= c && c <= '\u{200A}') || c == '\u{2028}' || c == '\u{2029}' || c == '\u{202F}' || c
        == '\u{205F}' || c == '\u{3000}'
}

/// `s` without leading and trailing white space, as `str::trim` gives it.
pub fn trim_text(s: &str) -> (r: &str)
    ensures
        r@ == trim_spec(s@),
{
    let n = s.unicode_len();
    let ghost t = s@;
    let mut i: usize = 0;
    assert(t.subrange(0, n as int) =~= t);
    while i < n && white_space(s.get_char(i))
        invariant
            i <= n,
            n == t.len(),
            t == s@,
            trim_start_spec(t) == trim_start_spec(t.subrange(i as int, n as int)),
        decreases n - i,
    {
        let ghost sub = t.subrange(i as int, n as int);
        assert(sub.drop_first() =~= t.subrange(i + 1, n as int));
        i = i + 1;
    }
    assert(trim_start_spec(t.subrange(i as int, n as int)) == t.subrange(i as int, n as int));
    let mut j: usize = n;
    while j > i && white_space(s.get_char(j - 1))
        invariant
            i <= j <= n,
            n == t.len(),
            t == s@,
            trim_end_spec(t.subrange(i as int, n as int)) == trim_end_spec(t.subrange(i as int, j as int)),
        decreases j - i,
    {
        let ghost sub = t.subrange(i as int, j as int);
        assert(sub.drop_last() =~= t.subrange(i as int, j - 1));
        j = j - 1;
    }
    assert(trim_end_spec(t.subrange(i as int, j as int)) == t.subrange(i as int, j as int));
    s.substring_char(i, j)
}

/// `s` without its leading `'#'` characters, as `str::trim_start_matches('#')`
/// gives it.
pub fn strip_hashes(s: &str) -> (r: &str)
    ensures
        r@ == strip_hashes_spec(s@),
{
    let n = s.unicode_len();
    let ghost t = s@;
    let mut i: usize = 0;
    assert(t.subrange(0, n as int) =~= t);
    while i < n && s.get_char(i) == '#'
        invariant
            i <= n,
            n == t.len(),
            t == s@,
            strip_hashes_spec(t) == strip_hashes_spec(t.subrange(i as int, n as int)),
        decreases n - i,
    {
        let ghost sub = t.subrange(i as int, n as int);
        assert(sub.drop_first() =~= t.subrange(i + 1, n as int));
        i = i + 1;
    }
    assert(strip_hashes_spec(t.subrange(i as int, n as int)) == t.subrange(i as int, n as int));
    s.substring_char(i, n)
}

// ---------------------------------------------------------------------------
// Hex colors
// ---------------------------------------------------------------------------

/// The value of the hexadecimal digit `c`, either case; `None` for any
/// other character.
pub open spec fn hex_value(c: char) -> Option<u8> {
    let v = c as u32;
    if '0' as u32 <= v <= '9' as u32 {
        Some((v - '0' as u32) as u8)
    } else if 'a' as u32 <= v <= 'f' as u32 {
        Some((v - 'a' as u32 + 10) as u8)
    } else if 'A' as u32 <= v <= 'F' as u32 {
        Some((v - 'A' as u32 + 10) as u8)
    } else {
        None
    }
}

/// The byte that the hexadecimal digits `hi` and `lo` spell.
pub open spec fn hex_pair(hi: char, lo: char) -> Option<u8> {
    match (hex_value(hi), hex_value(lo)) {
        (Some(h), Some(l)) => Some((16 * h + l) as u8),
        _ => None,
    }
}

/// The color written as `RRGGBB`, or as `RGB` with each digit doubled;
/// `None` for any other text.
pub open spec fn hex_color_chars(t: Seq<char>) -> Option<(u8, u8, u8)> {
    if t.len() == 6 {
        match (hex_pair(t[0], t[1]), hex_pair(t[2], t[3]), hex_pair(t[4], t[5])) {
            (Some(r), Some(g), Some(b)) => Some((r, g, b)),
            _ => None,
        }
    } else if t.len() == 3 {
        match (hex_pair(t[0], t[0]), hex_pair(t[1], t[1]), hex_pair(t[2], t[2])) {
            (Some(r), Some(g), Some(b)) => Some((r, g, b)),
            _ => None,
        }
    } else {
        None
    }
}

/// The text once white space around it and its leading `#`s are dropped.
pub open spec fn hex_text(s: Seq<char>) -> Seq<char> {
    strip_hashes_spec(trim_spec(s))
}

/// The color that the hex text `s` spells, if any.
pub open spec fn hex_color_spec(s: Seq<char>) -> Option<(u8, u8, u8)> {
    hex_color_chars(hex_text(s))
}

/// The value of an ASCII hexadecimal digit byte.
spec fn hex_byte(b: u8) -> Option<u8> {
    if 0x30 <= b <= 0x39 {
        Some((b - 0x30) as u8)
    } else if 0x61 <= b <= 0x66 {
        Some((b - 0x61 + 10) as u8)
    } else if 0x41 <= b <= 0x46 {
        Some((b - 0x41 + 10) as u8)
    } else {
        None
    }
}

spec fn hex_byte_pair(hi: u8, lo: u8) -> Option<u8> {
    match (hex_byte(hi), hex_byte(lo)) {
        (Some(h), Some(l)) => Some((16 * h + l) as u8),
        _ => None,
    }
}

/// `hex_color_chars` read over the UTF-8 bytes of the text.
spec fn hex_color_bytes(b: Seq<u8>) -> Option<(u8, u8, u8)> {
    if b.len() == 6 {
        match (hex_byte_pair(b[0], b[1]), hex_byte_pair(b[2], b[3]), hex_byte_pair(b[4], b[5])) {
            (Some(r), Some(g), Some(bl)) => Some((r, g, bl)),
            _ => None,
        }
    } else if b.len() == 3 {
        match (hex_byte_pair(b[0], b[0]), hex_byte_pair(b[1], b[1]), hex_byte_pair(b[2], b[2])) {
            (Some(r), Some(g), Some(bl)) => Some((r, g, bl)),
            _ => None,
        }
    } else {
        None
    }
}

/// The UTF-8 bytes of ASCII text are its characters one for one; text with
/// another character has a byte of 0x80 or more.
proof fn lemma_encode_ascii(t: Seq<char>)
    ensures
        (forall|i: int| 0 <= i < t.len() ==> (#[trigger] t[i] as u32) < 0x80) ==> {
            &&& encode_utf8(t).len() == t.len()
            &&& forall|i: int| 0 <= i < t.len() ==> #[trigger] encode_utf8(t)[i] == (t[i] as u32) as u8
        },
        (exists|i: int| 0 <= i < t.len() && (#[trigger] t[i] as u32) >= 0x80) ==> exists|j: int|
            0 <= j < encode_utf8(t).len() && #[trigger] encode_utf8(t)[j] >= 0x80,
    decreases t.len(),
{
    if t.len() > 0 {
        let rest = t.drop_first();
        lemma_encode_ascii(rest);
        let c = t[0] as u32;
        let e = encode_scalar(c);
        assert(encode_utf8(t) == e + encode_utf8(rest));
        if c < 0x80 {
            assert((c & 0x7F) as u8 == c as u8) by (bit_vector)
                requires
                    c < 0x80,
            ;
            assert(e.len() == 1);
            if forall|i: int| 0 <= i < t.len() ==> (#[trigger] t[i] as u32) < 0x80 {
                assert forall|i: int| 0 <= i < t.len() implies #[trigger] encode_utf8(t)[i] == (t[i] as u32) as u8 by {
                    if i > 0 {
                        assert(rest[i - 1] == t[i]);
                    }
                }
            }
            if exists|i: int| 0 <= i < t.len() && (#[trigger] t[i] as u32) >= 0x80 {
                let i = choose|i: int| 0 <= i < t.len() && (#[trigger] t[i] as u32) >= 0x80;
                assert(rest[i - 1] == t[i]);
                let j = choose|j: int| 0 <= j < encode_utf8(rest).len() && #[trigger] encode_utf8(rest)[j] >= 0x80;
                assert(encode_utf8(t)[j + 1] == encode_utf8(rest)[j]);
            }
        } else {
            char_is_scalar(t[0]);
            assert(e[0] >= 0x80) by {
                let x2 = ((c >> 6) & 0x1F) as u8;
                let x3 = ((c >> 12) & 0x0F) as u8;
                let x4 = ((c >> 18) & 0x7) as u8;
                assert((0xC0u8 | x2) >= 0x80) by (bit_vector);
                assert((0xE0u8 | x3) >= 0x80) by (bit_vector);
                assert((0xF0u8 | x4) >= 0x80) by (bit_vector);
            }
            assert(encode_utf8(t)[0] == e[0]);
        }
    }
}

/// Reading the color from the UTF-8 bytes gives what reading it from the
/// characters gives.
proof fn lemma_hex_bytes(t: Seq<char>)
    ensures
        hex_color_bytes(encode_utf8(t)) == hex_color_chars(t),
{
    let b = encode_utf8(t);
    lemma_encode_ascii(t);
    if forall|i: int| 0 <= i < t.len() ==> (#[trigger] t[i] as u32) < 0x80 {
        assert forall|i: int| 0 <= i < t.len() implies hex_byte(#[trigger] b[i]) == hex_value(t[i]) by {
            assert((t[i] as u32) < 0x80);
        }
        if t.len() == 6 {
            assert(hex_byte(b[0]) == hex_value(t[0]));
            assert(hex_byte(b[1]) == hex_value(t[1]));
            assert(hex_byte(b[2]) == hex_value(t[2]));
            assert(hex_byte(b[3]) == hex_value(t[3]));
            assert(hex_byte(b[4]) == hex_value(t[4]));
            assert(hex_byte(b[5]) == hex_value(t[5]));
        } else if t.len() == 3 {
            assert(hex_byte(b[0]) == hex_value(t[0]));
            assert(hex_byte(b[1]) == hex_value(t[1]));
            assert(hex_byte(b[2]) == hex_value(t[2]));
        }
    } else {
        let i = choose|i: int| 0 <= i < t.len() && (#[trigger] t[i] as u32) >= 0x80;
        assert(hex_value(t[i]) is None);
        let j = choose|j: int| 0 <= j < b.len() && #[trigger] b[j] >= 0x80;
        assert(hex_byte(b[j]) is None);
        assert(hex_color_chars(t) is None) by {
            if t.len() == 6 {
                assert(0 <= i < 6);
            } else if t.len() == 3 {
                assert(0 <= i < 3);
            }
        }
        assert(hex_color_bytes(b) is None) by {
            if b.len() == 6 {
                assert(0 <= j < 6);
            } else if b.len() == 3 {
                assert(0 <= j < 3);
            }
        }
    }
}

fn hex_digit_value(b: u8) -> (r: Option<u8>)
    ensures
        r == hex_byte(b),
{
    if 0x30 <= b && b <= 0x39 {
        Some(b - 0x30)
    } else if 0x61 <= b && b <= 0x66 {
        Some(b - 0x61 + 10)
    } else if 0x41 <= b && b <= 0x46 {
        Some(b - 0x41 + 10)
    } else {
        None
    }
}

fn hex_pair_value(b0: u8, b1: u8) -> (r: Option<u8>)
    ensures
        r == hex_byte_pair(b0, b1),
{
    match (hex_digit_value(b0), hex_digit_value(b1)) {
        (Some(hi), Some(lo)) => Some(16 * hi + lo),
        _ => None,
    }
}

/// Parses `"#RRGGBB"`, `"RRGGBB"`, `"#RGB"` or `"RGB"` into `(r, g, b)`,
/// ignoring white space around it and any number of leading `#`; each digit
/// of the short form stands for itself twice. Anything else, a sign or a
/// character that is no hexadecimal digit included, gives `None`, so a bad
/// hex string leaves the color unchanged.
pub fn parse_hex_color(s: &str) -> (r: Option<(u8, u8, u8)>)
    ensures
        r == hex_color_spec(s@),
{
    let t = trim_text(s);
    let t = strip_hashes(t);
    let b = t.as_bytes();
    let n = t.len();
    proof {
        lemma_hex_bytes(t@);
    }
    assert(b@ == encode_utf8(t@));
    if n == 6 {
        let r = match hex_pair_value(b[0], b[1]) {
            Some(v) => v,
            None => return None,
        };
        let g = match hex_pair_value(b[2], b[3]) {
            Some(v) => v,
            None => return None,
        };
        let bl = match hex_pair_value(b[4], b[5]) {
            Some(v) => v,
            None => return None,
        };
        Some((r, g, bl))
    } else if n == 3 {
        let r = match hex_pair_value(b[0], b[0]) {
            Some(v) => v,
            None => return None,
        };
        let g = match hex_pair_value(b[1], b[1]) {
            Some(v) => v,
            None => return None,
        };
        let bl = match hex_pair_value(b[2], b[2]) {
            Some(v) => v,
            None => return None,
        };
        Some((r, g, bl))
    } else {
        None
    }
}

/// The hexadecimal digit of `v` (below 16), in upper or lower case.
pub open spec fn hex_digit_char(v: int, upper: bool) -> char {
    if v < 10 {
        (0x30 + v) as char
    } else if upper {
        (0x41 + v - 10) as char
    } else {
        (0x61 + v - 10) as char
    }
}

/// `r`, `g` and `b` written as two hexadecimal digits each.
pub open spec fn hex_digits(r: u8, g: u8, b: u8, upper: bool) -> Seq<char> {
    seq![
        hex_digit_char(r as int / 16, upper),
        hex_digit_char(r as int % 16, upper),
        hex_digit_char(g as int / 16, upper),
        hex_digit_char(g as int % 16, upper),
        hex_digit_char(b as int / 16, upper),
        hex_digit_char(b as int % 16, upper),
    ]
}

/// The character with ASCII letters turned to upper or lower case, as
/// `to_ascii_uppercase` and `to_ascii_lowercase` do; others stay.
pub open spec fn ascii_case(c: char, upper: bool) -> char {
    let v = c as u32;
    if upper && 0x61 <= v <= 0x7a {
        (v - 32) as char
    } else if !upper && 0x41 <= v <= 0x5a {
        (v + 32) as char
    } else {
        c
    }
}

/// The text with its ASCII letters in upper or lower case.
pub open spec fn case_mapped(s: Seq<char>, upper: bool) -> Seq<char> {
    Seq::new(s.len(), |i: int| ascii_case(s[i], upper))
}

proof fn lemma_hex_digit_char(v: int, upper: bool)
    requires
        0 <= v < 16,
    ensures
        hex_value(hex_digit_char(v, upper)) == Some(v as u8),
        !is_white_space(hex_digit_char(v, upper)),
        hex_digit_char(v, upper) != '#',
{
    let c = hex_digit_char(v, upper);
    if v < 10 {
        assert((c as u32) == 0x30 + v);
    } else if upper {
        assert((c as u32) == 0x41 + v - 10);
    } else {
        assert((c as u32) == 0x61 + v - 10);
    }
}

/// Text that starts and ends with no white space is its own trimming.
proof fn lemma_trim_plain(s: Seq<char>)
    requires
        s.len() > 0,
        !is_white_space(s[0]),
        !is_white_space(s.last()),
    ensures
        trim_spec(s) == s,
{
    assert(trim_start_spec(s) == s);
}

/// Trailing white space is trimmed past a first character that is none.
proof fn lemma_trim_end_after(x: char, s: Seq<char>)
    requires
        !is_white_space(x),
    ensures
        trim_end_spec(seq![x] + s) == seq![x] + trim_end_spec(s),
    decreases s.len(),
{
    let xs = seq![x] + s;
    if s.len() == 0 {
        assert(xs =~= seq![x]);
    } else if is_white_space(s.last()) {
        assert(xs.last() == s.last());
        assert(xs.drop_last() =~= seq![x] + s.drop_last());
        lemma_trim_end_after(x, s.drop_last());
    } else {
        assert(xs.last() == s.last());
    }
}

/// Text that does not start with `#` keeps its start.
proof fn lemma_strip_plain(s: Seq<char>)
    requires
        s.len() > 0,
        s[0] != '#',
    ensures
        strip_hashes_spec(s) == s,
{
}

/// One more leading `#` is dropped with the others.
proof fn lemma_strip_hash(s: Seq<char>)
    ensures
        strip_hashes_spec(seq!['#'] + s) == strip_hashes_spec(s),
{
    assert((seq!['#'] + s).drop_first() =~= s);
}

/// Every byte written as two hexadecimal digits, in either case and with or
/// without a leading `#`, reads back as that byte.
pub proof fn law_hex_round_trip(r: u8, g: u8, b: u8, upper: bool)
    ensures
        hex_color_spec(hex_digits(r, g, b, upper)) == Some((r, g, b)),
        hex_color_spec(seq!['#'] + hex_digits(r, g, b, upper)) == Some((r, g, b)),
{
    let d = hex_digits(r, g, b, upper);
    lemma_hex_digit_char(r as int / 16, upper);
    lemma_hex_digit_char(r as int % 16, upper);
    lemma_hex_digit_char(g as int / 16, upper);
    lemma_hex_digit_char(g as int % 16, upper);
    lemma_hex_digit_char(b as int / 16, upper);
    lemma_hex_digit_char(b as int % 16, upper);
    lemma_trim_plain(d);
    lemma_strip_plain(d);
    assert(hex_text(d) == d);
    assert(hex_color_chars(d) == Some((r, g, b)));
    let hd = seq!['#'] + d;
    assert(hd.last() == d.last());
    lemma_trim_plain(hd);
    lemma_strip_hash(d);
}

/// `RGB` reads as `RRGGBB`: each digit of the short form stands for itself
/// twice.
pub proof fn law_hex_short_form(x: char, y: char, z: char)
    requires
        hex_value(x) is Some,
        hex_value(y) is Some,
        hex_value(z) is Some,
    ensures
        hex_color_spec(seq![x, y, z]) == hex_color_spec(seq![x, x, y, y, z, z]),
{
    let short = seq![x, y, z];
    let long = seq![x, x, y, y, z, z];
    assert(!is_white_space(x) && x != '#');
    assert(!is_white_space(z));
    lemma_trim_plain(short);
    lemma_strip_plain(short);
    lemma_trim_plain(long);
    lemma_strip_plain(long);
}

/// A `#` more in front of text that does not start with white space changes
/// nothing.
pub proof fn law_hex_extra_hash(s: Seq<char>)
    requires
        s.len() == 0 || !is_white_space(s[0]),
    ensures
        hex_color_spec(seq!['#'] + s) == hex_color_spec(s),
{
    let hs = seq!['#'] + s;
    assert(trim_start_spec(hs) == hs);
    assert(trim_start_spec(s) == s);
    lemma_trim_end_after('#', s);
    lemma_strip_hash(trim_end_spec(s));
}

proof fn lemma_case_char(c: char, upper: bool)
    ensures
        is_white_space(ascii_case(c, upper)) == is_white_space(c),
        (ascii_case(c, upper) == '#') == (c == '#'),
        hex_value(ascii_case(c, true)) == hex_value(ascii_case(c, false)),
{
    let v = c as u32;
    if 0x61 <= v <= 0x7a {
        assert((ascii_case(c, true) as u32) == v - 32);
    }
    if 0x41 <= v <= 0x5a {
        assert((ascii_case(c, false) as u32) == v + 32);
    }
}

proof fn lemma_case_trim_start(s: Seq<char>, upper: bool)
    ensures
        trim_start_spec(case_mapped(s, upper)) == case_mapped(trim_start_spec(s), upper),
    decreases s.len(),
{
    let m = case_mapped(s, upper);
    if s.len() > 0 {
        lemma_case_char(s[0], upper);
        if is_white_space(s[0]) {
            assert(m.drop_first() =~= case_mapped(s.drop_first(), upper));
            lemma_case_trim_start(s.drop_first(), upper);
        }
    }
}

proof fn lemma_case_trim_end(s: Seq<char>, upper: bool)
    ensures
        trim_end_spec(case_mapped(s, upper)) == case_mapped(trim_end_spec(s), upper),
    decreases s.len(),
{
    let m = case_mapped(s, upper);
    if s.len() > 0 {
        lemma_case_char(s.last(), upper);
        if is_white_space(s.last()) {
            assert(m.drop_last() =~= case_mapped(s.drop_last(), upper));
            lemma_case_trim_end(s.drop_last(), upper);
        }
    }
}

proof fn lemma_case_strip(s: Seq<char>, upper: bool)
    ensures
        strip_hashes_spec(case_mapped(s, upper)) == case_mapped(strip_hashes_spec(s), upper),
    decreases s.len(),
{
    let m = case_mapped(s, upper);
    if s.len() > 0 {
        lemma_case_char(s[0], upper);
        if s[0] == '#' {
            assert(m.drop_first() =~= case_mapped(s.drop_first(), upper));
            lemma_case_strip(s.drop_first(), upper);
        }
    }
}

/// Hex text reads the same in upper and in lower case.
pub proof fn law_hex_ignores_case(s: Seq<char>)
    ensures
        hex_color_spec(case_mapped(s, true)) == hex_color_spec(case_mapped(s, false)),
{
    lemma_case_trim_start(s, true);
    lemma_case_trim_start(s, false);
    lemma_case_trim_end(trim_start_spec(s), true);
    lemma_case_trim_end(trim_start_spec(s), false);
    lemma_case_strip(trim_spec(s), true);
    lemma_case_strip(trim_spec(s), false);
    let t = hex_text(s);
    let u = case_mapped(t, true);
    let l = case_mapped(t, false);
    assert forall|i: int| 0 <= i < t.len() implies hex_value(#[trigger] u[i]) == hex_value(l[i]) by {
        lemma_case_char(t[i], true);
    }
    if t.len() == 6 {
        assert(hex_value(u[0]) == hex_value(l[0]));
        assert(hex_value(u[1]) == hex_value(l[1]));
        assert(hex_value(u[2]) == hex_value(l[2]));
        assert(hex_value(u[3]) == hex_value(l[3]));
        assert(hex_value(u[4]) == hex_value(l[4]));
        assert(hex_value(u[5]) == hex_value(l[5]));
    } else if t.len() == 3 {
        assert(hex_value(u[0]) == hex_value(l[0]));
        assert(hex_value(u[1]) == hex_value(l[1]));
        assert(hex_value(u[2]) == hex_value(l[2]));
    }
}

// ---------------------------------------------------------------------------
// Decimal numbers
// ---------------------------------------------------------------------------

/// The character of a decimal digit.
pub open spec fn digit_char(d: int) -> char {
    (48 + d) as char
}

/// The decimal digits of `n`, as `Display` writes an unsigned integer.
pub open spec fn decimal(n: nat) -> Seq<char>
    decreases n,
{
    if n < 10 {
        seq![digit_char(n as int)]
    } else {
        decimal(n / 10).push(digit_char((n % 10) as int))
    }
}

fn digit_str(d: usize) -> (s: &'static str)
    requires
        d < 10,
    ensures
        s@ == seq![digit_char(d as int)],
{
    proof {
        reveal_strlit("0");
        reveal_strlit("1");
        reveal_strlit("2");
        reveal_strlit("3");
        reveal_strlit("4");
        reveal_strlit("5");
        reveal_strlit("6");
        reveal_strlit("7");
        reveal_strlit("8");
        reveal_strlit("9");
    }
    match d {
        0 => "0",
        1 => "1",
        2 => "2",
        3 => "3",
        4 => "4",
        5 => "5",
        6 => "6",
        7 => "7",
        8 => "8",
        _ => "9",
    }
}

/// `n` written in decimal.
pub fn decimal_string(n: usize) -> (s: String)
    ensures
        s@ == decimal(n as nat),
    decreases n,
{
    if n < 10 {
        String::from_str(digit_str(n))
    } else {
        let mut s = decimal_string(n / 10);
        s.append(digit_str(n % 10));
        s
    }
}

} // verus!

use vstd::prelude::*;

use crate::language::text::{
    ascii_lowercase, bpos, byte_len, chars_of, chars_to_string, is_ascii_text, lemma_bpos_le,
    lemma_bpos_step, same_chars, spec_trim, to_lowercase, trim_chars, unicode_lowercase,
    utf8_width, width,
};
use crate::render::styles::Color;

verus! {

/// Why a color cannot be read.
#[derive(Debug, Clone, Copy, PartialEq, Eq, Structural)]
pub enum ColorError {
    /// No digits were given.
    Empty,
    /// A character is not a hexadecimal digit.
    InvalidDigit,
    /// The digits denote a number above 255.
    Overflow,
    /// The color is not 3, 6 or 8 bytes of hexadecimal digits long.
    InvalidHexColor,
}

// ---------------------------------------------------------------------------
// Bytes written in base 16
// ---------------------------------------------------------------------------
/// The value of the hexadecimal digit `c` (`0`-`9`, `a`-`f`, `A`-`F`).
pub open spec fn hex_digit(c: char) -> Option<u8> {
    let u = c as u32;
    if 0x30 <= u <= 0x39 {
        Some((u - 0x30) as u8)
    } else if 0x61 <= u <= 0x66 {
        Some((u - 0x61 + 10) as u8)
    } else if 0x41 <= u <= 0x46 {
        Some((u - 0x41 + 10) as u8)
    } else {
        None
    }
}

/// Reads the digits `d[i..]` after the value `acc` of the digits before them: the first
/// character that is not a digit is an error, and so is a prefix whose value passes 255.
pub open spec fn scan_hex(d: Seq<char>, i: int, acc: nat) -> Result<u8, ColorError>
    decreases d.len() - i,
{
    if i < 0 || i >= d.len() {
        Ok(acc as u8)
    } else {
        match hex_digit(d[i]) {
            None => Err(ColorError::InvalidDigit),
            Some(v) => if acc * 16 + v > 255 {
                Err(ColorError::Overflow)
            } else {
                scan_hex(d, i + 1, (acc * 16 + v) as nat)
            },
        }
    }
}

/// A byte written in base 16, read as `u8::from_str_radix(s, 16)` reads it: one leading `+`
/// is allowed before at least one digit.
pub open spec fn spec_hex_byte(s: Seq<char>) -> Result<u8, ColorError> {
    if s.len() == 0 {
        Err(ColorError::Empty)
    } else if s.len() == 1 && s[0] == '+' {
        Err(ColorError::InvalidDigit)
    } else if s[0] == '+' {
        scan_hex(s, 1, 0)
    } else {
        scan_hex(s, 0, 0)
    }
}

fn hex_digit_of(c: char) -> (r: Option<u8>)
    ensures
        r == hex_digit(c),
{
    let u = c as u32;
    if 0x30 <= u && u <= 0x39 {
        Some((u - 0x30) as u8)
    } else if 0x61 <= u && u <= 0x66 {
        Some((u - 0x61 + 10) as u8)
    } else if 0x41 <= u && u <= 0x46 {
        Some((u - 0x41 + 10) as u8)
    } else {
        None
    }
}

fn hex_byte_of(d: &Vec<char>) -> (r: Result<u8, ColorError>)
    ensures
        r == spec_hex_byte(d@),
{
    if d.len() == 0 {
        return Err(ColorError::Empty);
    }
    if d.len() == 1 && d[0] == '+' {
        return Err(ColorError::InvalidDigit);
    }
    let start: usize = if d[0] == '+' {
        1
    } else {
        0
    };
    let mut acc: u8 = 0;
    let mut i: usize = start;
    while i < d.len()
        invariant
            start <= i <= d.len(),
            spec_hex_byte(d@) == scan_hex(d@, i as int, acc as nat),
        decreases d.len() - i,
    {
        let v = match hex_digit_of(d[i]) {
            None => {
                return Err(ColorError::InvalidDigit);
            },
            Some(v) => v,
        };
        let next: u32 = (acc as u32) * 16 + (v as u32);
        if next > 255 {
            return Err(ColorError::Overflow);
        }
        acc = next as u8;
        i = i + 1;
    }
    Ok(acc)
}

/// The byte that `s` writes in base 16.
pub fn hex_byte(s: &str) -> (r: Result<u8, ColorError>)
    ensures
        r == spec_hex_byte(s@),
{
    hex_byte_of(&chars_of(s))
}

/// The byte that `s` written twice denotes in base 16 (the digit `a` stands for `aa`).
pub fn hex_repeat(s: &str) -> (r: Result<u8, ColorError>)
    ensures
        r == spec_hex_byte(s@ + s@),
{
    let mut d = chars_of(s);
    let e = chars_of(s);
    let mut i: usize = 0;
    while i < e.len()
        invariant
            e@ == s@,
            i <= e.len(),
            d@ == s@ + s@.take(i as int),
        decreases e.len() - i,
    {
        d.push(e[i]);
        i = i + 1;
    }
    assert(s@.take(s@.len() as int) =~= s@);
    hex_byte_of(&d)
}

/// The color with the given channels.
pub fn rgba(r: u8, g: u8, b: u8, a: u8) -> (c: Color)
    ensures
        c == (Color { r, g, b, a }),
{
    Color { r, g, b, a }
}

// ---------------------------------------------------------------------------
// Hexadecimal colors
// ---------------------------------------------------------------------------
/// The digits of a hexadecimal color: `s` without surrounding white space and without one
/// leading `#`.
pub open spec fn hex_part(s: Seq<char>) -> Seq<char> {
    let t = spec_trim(s);
    if t.len() > 0 && t[0] == '#' {
        t.drop_first()
    } else {
        t
    }
}

pub open spec fn is_ascii(c: char) -> bool {
    (c as u32) < 0x80
}

pub open spec fn all_ascii(h: Seq<char>) -> bool {
    forall|i: int| 0 <= i < h.len() ==> is_ascii(#[trigger] h[i])
}

/// Whether the byte offset `b` of the UTF-8 encoding of `h` falls between two characters.
pub open spec fn is_char_boundary(h: Seq<char>, b: int) -> bool {
    exists|k: int| 0 <= k <= h.len() && bpos(h, k) == b
}

/// Whether the byte ranges that a color of the length of `h` is cut into (one byte per channel
/// for 3 bytes, two bytes per channel for 6 or 8 bytes) begin and end between characters of `h`.
pub open spec fn hex_cuts_fit(h: Seq<char>) -> bool {
    let n = byte_len(h);
    &&& n == 3 ==> is_char_boundary(h, 1) && is_char_boundary(h, 2)
    &&& (n == 6 || n == 8) ==> is_char_boundary(h, 2) && is_char_boundary(h, 4)
        && is_char_boundary(h, 6)
}

/// The color of the four channel results, the first failure winning.
pub open spec fn color_of(
    r: Result<u8, ColorError>,
    g: Result<u8, ColorError>,
    b: Result<u8, ColorError>,
    a: Result<u8, ColorError>,
) -> Result<Color, ColorError> {
    match r {
        Err(e) => Err(e),
        Ok(r) => match g {
            Err(e) => Err(e),
            Ok(g) => match b {
                Err(e) => Err(e),
                Ok(b) => match a {
                    Err(e) => Err(e),
                    Ok(a) => Ok(Color { r, g, b, a }),
                },
            },
        },
    }
}

/// The channel written by the one digit at `i`, doubled.
pub open spec fn short_channel(h: Seq<char>, i: int) -> Result<u8, ColorError> {
    spec_hex_byte(h.subrange(i, i + 1) + h.subrange(i, i + 1))
}

/// The channel written by the two digits at `i` and `i + 1`.
pub open spec fn long_channel(h: Seq<char>, i: int) -> Result<u8, ColorError> {
    spec_hex_byte(h.subrange(i, i + 2))
}

/// The color that `s` writes as `#rgb`, `#rrggbb` or `#rrggbbaa` (the `#` may be left out;
/// alpha is 255 unless given). A color of another length is refused; one whose cuts hold a
/// character outside ASCII has a channel that is no hexadecimal number.
pub open spec fn spec_parse_hex_color(s: Seq<char>) -> Result<Color, ColorError> {
    let h = hex_part(s);
    let n = byte_len(h);
    if n != 3 && n != 6 && n != 8 {
        Err(ColorError::InvalidHexColor)
    } else if !all_ascii(h) {
        Err(ColorError::InvalidDigit)
    } else if n == 3 {
        color_of(short_channel(h, 0), short_channel(h, 1), short_channel(h, 2), Ok(255u8))
    } else if n == 6 {
        color_of(long_channel(h, 0), long_channel(h, 2), long_channel(h, 4), Ok(255u8))
    } else {
        color_of(long_channel(h, 0), long_channel(h, 2), long_channel(h, 4), long_channel(h, 6))
    }
}

proof fn lemma_ascii_byte_len(h: Seq<char>)
    requires
        all_ascii(h),
    ensures
        byte_len(h) == h.len(),
    decreases h.len(),
{
    if h.len() > 0 {
        assert(is_ascii(h[0]));
        assert(all_ascii(h.drop_first())) by {
            assert forall|i: int| 0 <= i < h.drop_first().len() implies is_ascii(
                #[trigger] h.drop_first()[i],
            ) by {
                assert(is_ascii(h[i + 1]));
            }
        }
        lemma_ascii_byte_len(h.drop_first());
    }
}

/// `byte_len(h)` when it is at most `cap`, else `cap + 1`.
fn byte_len_capped(h: &Vec<char>, cap: usize) -> (r: usize)
    requires
        cap < usize::MAX - 4,
    ensures
        byte_len(h@) <= cap ==> r == byte_len(h@),
        byte_len(h@) > cap ==> r == cap + 1,
{
    let mut pos: usize = 0;
    let mut k: usize = 0;
    assert(h@.take(0) =~= Seq::<char>::empty());
    while k < h.len()
        invariant
            k <= h.len(),
            cap < usize::MAX - 4,
            pos == bpos(h@, k as int),
            pos <= cap,
        decreases h.len() - k,
    {
        proof {
            lemma_bpos_step(h@, k as int);
        }
        pos = pos + utf8_width(h[k]);
        k = k + 1;
        if pos > cap {
            proof {
                lemma_bpos_le(h@, k as int, h@.len() as int);
                assert(h@.take(h@.len() as int) =~= h@);
            }
            return cap + 1;
        }
    }
    assert(h@.take(h@.len() as int) =~= h@);
    pos
}

/// Whether the byte offset `b` of the encoding of `h` falls between two characters.
fn char_boundary(h: &Vec<char>, b: usize) -> (r: bool)
    requires
        b < usize::MAX - 4,
    ensures
        r == is_char_boundary(h@, b as int),
{
    let mut pos: usize = 0;
    let mut k: usize = 0;
    assert(h@.take(0) =~= Seq::<char>::empty());
    while k < h.len()
        invariant
            k <= h.len(),
            b < usize::MAX - 4,
            pos == bpos(h@, k as int),
            pos <= b,
            forall|k2: int| 0 <= k2 < k ==> bpos(h@, k2) != b,
        decreases h.len() - k,
    {
        if pos == b {
            assert(bpos(h@, k as int) == b);
            return true;
        }
        proof {
            lemma_bpos_step(h@, k as int);
        }
        pos = pos + utf8_width(h[k]);
        k = k + 1;
        if pos > b {
            assert forall|k2: int| 0 <= k2 <= h@.len() implies bpos(h@, k2) != b by {
                if k2 >= k {
                    lemma_bpos_le(h@, k as int, k2);
                }
            }
            return false;
        }
    }
    if pos == b {
        assert(bpos(h@, k as int) == b);
        return true;
    }
    assert forall|k2: int| 0 <= k2 <= h@.len() implies bpos(h@, k2) != b by {
        if k2 == k {
        }
    }
    false
}

fn all_ascii_chars(h: &Vec<char>) -> (r: bool)
    ensures
        r == all_ascii(h@),
{
    for i in 0..h.len()
        invariant
            forall|j: int| 0 <= j < i ==> is_ascii(#[trigger] h@[j]),
    {
        if (h[i] as u32) >= 0x80 {
            assert(!is_ascii(h@[i as int]));
            return false;
        }
    }
    true
}

/// The digits of a hexadecimal color, computed from `s`.
fn hex_part_of(s: &str) -> (h: Vec<char>)
    ensures
        h@ == hex_part(s@),
{
    let mut t = trim_chars(&chars_of(s));
    if t.len() > 0 && t[0] == '#' {
        let ghost t0 = t@;
        t.remove(0);
        assert(t@ =~= t0.drop_first());
    }
    t
}

/// Reads `s` as a hexadecimal color: `#rgb` (each digit doubled), `#rrggbb` or `#rrggbbaa`,
/// with or without the `#`, white space around it ignored; alpha is 255 unless given.
pub fn parse_hex_color(s: &str) -> (r: Result<Color, ColorError>)
    requires
        hex_cuts_fit(hex_part(s@)),
    ensures
        r == spec_parse_hex_color(s@),
{
    let h = hex_part_of(s);
    let n = byte_len_capped(&h, 8);
    if n != 3 && n != 6 && n != 8 {
        return Err(ColorError::InvalidHexColor);
    }
    if !all_ascii_chars(&h) {
        return Err(ColorError::InvalidDigit);
    }
    proof {
        lemma_ascii_byte_len(h@);
    }
    if n == 3 {
        let x0 = vec![h[0], h[0]];
        let x1 = vec![h[1], h[1]];
        let x2 = vec![h[2], h[2]];
        assert(x0@ =~= h@.subrange(0, 1) + h@.subrange(0, 1));
        assert(x1@ =~= h@.subrange(1, 2) + h@.subrange(1, 2));
        assert(x2@ =~= h@.subrange(2, 3) + h@.subrange(2, 3));
        let r = hex_byte_of(&x0)?;
        let g = hex_byte_of(&x1)?;
        let b = hex_byte_of(&x2)?;
        return Ok(rgba(r, g, b, 255));
    }
    let x0 = vec![h[0], h[1]];
    let x1 = vec![h[2], h[3]];
    let x2 = vec![h[4], h[5]];
    assert(x0@ =~= h@.subrange(0, 2));
    assert(x1@ =~= h@.subrange(2, 4));
    assert(x2@ =~= h@.subrange(4, 6));
    let r = hex_byte_of(&x0)?;
    let g = hex_byte_of(&x1)?;
    let b = hex_byte_of(&x2)?;
    if n == 6 {
        return Ok(rgba(r, g, b, 255));
    }
    let x3 = vec![h[6], h[7]];
    assert(x3@ =~= h@.subrange(6, 8));
    let a = hex_byte_of(&x3)?;
    Ok(rgba(r, g, b, a))
}

// ---------------------------------------------------------------------------
// Colors by name or digits
// ---------------------------------------------------------------------------
/// The colors that can be given by name.
pub open spec fn named_color(l: Seq<char>) -> Option<Color> {
    if l == seq!['r', 'e', 'd'] {
        Some(Color { r: 0xFF, g: 0, b: 0, a: 0xFF })
    } else if l == seq!['g', 'r', 'e', 'e', 'n'] {
        Some(Color { r: 0, g: 0xFF, b: 0, a: 0xFF })
    } else if l == seq!['b', 'l', 'u', 'e'] {
        Some(Color { r: 0, g: 0, b: 0xFF, a: 0xFF })
    } else {
        None
    }
}

/// Whether reading the lower-case color text `l` stays within its characters.
pub open spec fn color_text_fits(l: Seq<char>) -> bool {
    named_color(l) is Some || hex_cuts_fit(hex_part(l))
}

/// The color that the lower-case text `l` gives: a named color, else a hexadecimal one.
pub open spec fn spec_lowercase_color(l: Seq<char>) -> Result<Color, ColorError> {
    match named_color(l) {
        Some(c) => Ok(c),
        None => spec_parse_hex_color(l),
    }
}

/// Reads a color from text already in lower case: `red`, `green` and `blue` by name, anything
/// else as a hexadecimal color.
pub fn parse_lowercase_color(l: &str) -> (r: Result<Color, ColorError>)
    requires
        color_text_fits(l@),
    ensures
        r == spec_lowercase_color(l@),
{
    let v = chars_of(l);
    if same_chars(&v, &['r', 'e', 'd']) {
        return Ok(rgba(0xFF, 0, 0, 0xFF));
    }
    if same_chars(&v, &['g', 'r', 'e', 'e', 'n']) {
        return Ok(rgba(0, 0xFF, 0, 0xFF));
    }
    if same_chars(&v, &['b', 'l', 'u', 'e']) {
        return Ok(rgba(0, 0, 0xFF, 0xFF));
    }
    parse_hex_color(l)
}

fn hex_cuts_fit_of(h: &Vec<char>) -> (r: bool)
    ensures
        r == hex_cuts_fit(h@),
{
    let n = byte_len_capped(h, 8);
    if n == 3 {
        char_boundary(h, 1) && char_boundary(h, 2)
    } else if n == 6 || n == 8 {
        char_boundary(h, 2) && char_boundary(h, 4) && char_boundary(h, 6)
    } else {
        true
    }
}

/// Reads a color from text in any case: the text is brought to lower case, then read by name
/// or as hexadecimal digits. `None` where the digits cannot be cut into channels between
/// characters.
pub fn parse_color(s: &str) -> (r: Option<Result<Color, ColorError>>)
    ensures
        is_ascii_text(s@) ==> unicode_lowercase(s@) == ascii_lowercase(s@),
        r is None <==> !color_text_fits(unicode_lowercase(s@)),
        r matches Some(c) ==> c == spec_lowercase_color(unicode_lowercase(s@)),
{
    let l = to_lowercase(s);
    let v = chars_of(l.as_str());
    let named = same_chars(&v, &['r', 'e', 'd']) || same_chars(&v, &['g', 'r', 'e', 'e', 'n'])
        || same_chars(&v, &['b', 'l', 'u', 'e']);
    if !named {
        let h = hex_part_of(l.as_str());
        if !hex_cuts_fit_of(&h) {
            return None;
        }
    }
    Some(parse_lowercase_color(l.as_str()))
}

// ---------------------------------------------------------------------------
// Laws of hexadecimal colors
// ---------------------------------------------------------------------------
/// `#rgb` is the color `#rrggbb`: a short color gives each digit twice.
pub proof fn lemma_short_hex_color_doubles(s: Seq<char>, t: Seq<char>)
    requires
        hex_part(s).len() == 3,
        all_ascii(hex_part(s)),
        hex_part(t) == seq![
            hex_part(s)[0],
            hex_part(s)[0],
            hex_part(s)[1],
            hex_part(s)[1],
            hex_part(s)[2],
            hex_part(s)[2],
        ],
    ensures
        spec_parse_hex_color(s) == spec_parse_hex_color(t),
{
    let h = hex_part(s);
    let h2 = hex_part(t);
    lemma_ascii_byte_len(h);
    assert(all_ascii(h2)) by {
        assert forall|i: int| 0 <= i < h2.len() implies is_ascii(#[trigger] h2[i]) by {
            assert(is_ascii(h[i / 2]));
        }
    }
    lemma_ascii_byte_len(h2);
    assert(h.subrange(0, 1) + h.subrange(0, 1) =~= h2.subrange(0, 2));
    assert(h.subrange(1, 2) + h.subrange(1, 2) =~= h2.subrange(2, 4));
    assert(h.subrange(2, 3) + h.subrange(2, 3) =~= h2.subrange(4, 6));
}

/// The lower-case hexadecimal digit of `v` (below 16).
pub open spec fn hex_digit_char(v: int) -> char {
    if v == 0 { '0' } else if v == 1 { '1' } else if v == 2 { '2' } else if v == 3 { '3' }
    else if v == 4 { '4' } else if v == 5 { '5' } else if v == 6 { '6' } else if v == 7 { '7' }
    else if v == 8 { '8' } else if v == 9 { '9' } else if v == 10 { 'a' } else if v == 11 { 'b' }
    else if v == 12 { 'c' } else if v == 13 { 'd' } else if v == 14 { 'e' } else { 'f' }
}

/// The two digits of the byte `b`.
pub open spec fn hex_pair(b: u8) -> Seq<char> {
    seq![hex_digit_char(b as int / 16), hex_digit_char(b as int % 16)]
}

/// The eight digits of the color `c`, as `rrggbbaa`.
pub open spec fn hex_text(c: Color) -> Seq<char> {
    hex_pair(c.r) + hex_pair(c.g) + hex_pair(c.b) + hex_pair(c.a)
}

proof fn lemma_hex_digit_char(v: int)
    requires
        0 <= v < 16,
    ensures
        hex_digit(hex_digit_char(v)) == Some(v as u8),
        is_ascii(hex_digit_char(v)),
        hex_digit_char(v) != '+',
{
}

proof fn lemma_hex_pair(b: u8)
    ensures
        spec_hex_byte(hex_pair(b)) == Ok::<u8, ColorError>(b),
        all_ascii(hex_pair(b)),
{
    let hi = b as int / 16;
    let lo = b as int % 16;
    assert(0 <= hi < 16 && 0 <= lo < 16 && hi * 16 + lo == b) by (nonlinear_arith)
        requires
            hi == b as int / 16,
            lo == b as int % 16,
            0 <= b < 256,
    ;
    lemma_hex_digit_char(hi);
    lemma_hex_digit_char(lo);
    let d = hex_pair(b);
    assert(scan_hex(d, 2, (hi * 16 + lo) as nat) == Ok::<u8, ColorError>(b));
    assert(scan_hex(d, 1, hi as nat) == Ok::<u8, ColorError>(b));
}

/// Every color reads back from its eight digits: `#rrggbbaa` is exact.
pub proof fn lemma_hex_color_round_trip(c: Color, s: Seq<char>)
    requires
        hex_part(s) == hex_text(c),
    ensures
        spec_parse_hex_color(s) == Ok::<Color, ColorError>(c),
{
    let h = hex_part(s);
    lemma_hex_pair(c.r);
    lemma_hex_pair(c.g);
    lemma_hex_pair(c.b);
    lemma_hex_pair(c.a);
    assert(all_ascii(h)) by {
        assert forall|i: int| 0 <= i < h.len() implies is_ascii(#[trigger] h[i]) by {
            if i < 2 {
                assert(h[i] == hex_pair(c.r)[i]);
            } else if i < 4 {
                assert(h[i] == hex_pair(c.g)[i - 2]);
            } else if i < 6 {
                assert(h[i] == hex_pair(c.b)[i - 4]);
            } else {
                assert(h[i] == hex_pair(c.a)[i - 6]);
            }
        }
    }
    lemma_ascii_byte_len(h);
    assert(h.subrange(0, 2) =~= hex_pair(c.r));
    assert(h.subrange(2, 4) =~= hex_pair(c.g));
    assert(h.subrange(4, 6) =~= hex_pair(c.b));
    assert(h.subrange(6, 8) =~= hex_pair(c.a));
}

// ---------------------------------------------------------------------------
// Sizes written as text
// ---------------------------------------------------------------------------
/// The shape of a size written as text; the numbers are left as text.
#[derive(Debug, Clone, PartialEq, Eq)]
pub enum SizeText {
    /// `auto`.
    Auto,
    /// A number followed by `%`: the number's text.
    Percent(String),
    /// Anything else: the text of a length.
    Length(String),
}

pub enum SSizeText {
    Auto,
    Percent(Seq<char>),
    Length(Seq<char>),
}

impl View for SizeText {
    type V = SSizeText;

    open spec fn view(&self) -> SSizeText {
        match self {
            SizeText::Auto => SSizeText::Auto,
            SizeText::Percent(t) => SSizeText::Percent(t@),
            SizeText::Length(t) => SSizeText::Length(t@),
        }
    }
}

/// The shape of the size text `s`: white space around it is ignored; `auto` is automatic; a
/// text ending in `%` is a percentage of the number before the `%` (white space around that
/// number ignored); anything else is a length.
pub open spec fn spec_size_text(s: Seq<char>) -> SSizeText {
    let t = spec_trim(s);
    if t == seq!['a', 'u', 't', 'o'] {
        SSizeText::Auto
    } else if t.len() > 0 && t.last() == '%' {
        SSizeText::Percent(spec_trim(t.drop_last()))
    } else {
        SSizeText::Length(t)
    }
}

/// Reads the shape of a size written as text.
pub fn size_text(s: &str) -> (r: SizeText)
    ensures
        r@ == spec_size_text(s@),
{
    let t = trim_chars(&chars_of(s));
    if same_chars(&t, &['a', 'u', 't', 'o']) {
        return SizeText::Auto;
    }
    if t.len() > 0 && t[t.len() - 1] == '%' {
        let mut n = t;
        let ghost t0 = n@;
        n.pop();
        assert(n@ =~= t0.drop_last());
        let inner = trim_chars(&n);
        return SizeText::Percent(chars_to_string(inner.as_slice()));
    }
    SizeText::Length(chars_to_string(t.as_slice()))
}

/// The named colors are the opaque primaries, and each name lights exactly its own channel:
/// `red` only red, `green` only green, `blue` only blue.
pub proof fn lemma_named_colors_are_primaries(l: Seq<char>)
    ensures
        named_color(seq!['r', 'e', 'd']) is Some,
        named_color(seq!['g', 'r', 'e', 'e', 'n']) is Some,
        named_color(seq!['b', 'l', 'u', 'e']) is Some,
        named_color(l) matches Some(c) ==> c.a == 0xFF && (if l == seq!['r', 'e', 'd'] {
            c.r == 0xFF
        } else {
            c.r == 0
        }) && (if l == seq!['g', 'r', 'e', 'e', 'n'] {
            c.g == 0xFF
        } else {
            c.g == 0
        }) && (if l == seq!['b', 'l', 'u', 'e'] {
            c.b == 0xFF
        } else {
            c.b == 0
        }),
{
}

/// An upper-case hexadecimal letter has the value of its lower-case letter.
pub proof fn lemma_hex_digit_case(c: char)
    requires
        0x61 <= (c as u32) <= 0x66,
    ensures
        hex_digit(((c as u32) - 32) as char) == hex_digit(c),
        hex_digit(c) == Some(((c as u32) - 0x61 + 10) as u8),
{
}

/// Six digits `rrggbb` read as the opaque color of those channels.
pub proof fn lemma_six_digit_color(r: u8, g: u8, b: u8, s: Seq<char>)
    requires
        hex_part(s) == hex_pair(r) + hex_pair(g) + hex_pair(b),
    ensures
        spec_parse_hex_color(s) == Ok::<Color, ColorError>(Color { r, g, b, a: 0xFF }),
{
    let h = hex_part(s);
    lemma_hex_pair(r);
    lemma_hex_pair(g);
    lemma_hex_pair(b);
    assert(all_ascii(h)) by {
        assert forall|i: int| 0 <= i < h.len() implies is_ascii(#[trigger] h[i]) by {
            if i < 2 {
                assert(h[i] == hex_pair(r)[i]);
            } else if i < 4 {
                assert(h[i] == hex_pair(g)[i - 2]);
            } else {
                assert(h[i] == hex_pair(b)[i - 4]);
            }
        }
    }
    lemma_ascii_byte_len(h);
    assert(h.subrange(0, 2) =~= hex_pair(r));
    assert(h.subrange(2, 4) =~= hex_pair(g));
    assert(h.subrange(4, 6) =~= hex_pair(b));
}

} // verus!

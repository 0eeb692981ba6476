//! Which encoded content is handed to the decoder.
//!
//! A decoder may stop the program on content it was not written for. Content
//! is therefore looked at first, by its leading bytes, and handed on only
//! where the decoder's way through it is short enough to be known:
//!
//! - content that starts with none of the signatures by which the format is
//!   guessed: the decoder reports it as unsupported and opens nothing;
//! - Netpbm content of one of the six classic kinds whose header gives, after
//!   blanks and comments, a width and a height from 1 to `MAX_SIDE` that ask
//!   for no more than eight pixels per byte of content;
//! - bitmap content with one of the five info headers, without compression,
//!   with 24 or 32 bits per pixel, at most `MAX_BITMAP_PIXELS` pixels and no
//!   more pixels than bytes of content.
//!
//! Everything else that carries a known signature is refused.

use vstd::prelude::*;

verus! {

/// The largest width and the largest height that Netpbm content may declare.
pub const MAX_SIDE: u32 = 16384;

/// The most digits that a declared width or height may be written with.
pub const MAX_DIGITS: usize = 5;

/// The largest width and the largest height that bitmap content may declare.
pub const MAX_BITMAP_SIDE: u64 = 65535;

/// The most pixels that bitmap content may declare: what the decoder's pixel
/// buffer holds from the start, so that it never has to grow.
pub const MAX_BITMAP_PIXELS: u64 = 33554432;

/// Position `i` of `s` exists and holds the byte `b`.
pub open spec fn at(s: Seq<u8>, i: int, b: u8) -> bool {
    0 <= i < s.len() && s[i] == b
}

/// `s` starts with the signature of a PNG picture.
pub open spec fn is_png(s: Seq<u8>) -> bool {
    at(s, 0, 137) && at(s, 1, 80) && at(s, 2, 78) && at(s, 3, 71) && at(s, 4, 13) && at(s, 5, 10)
        && at(s, 6, 26) && at(s, 7, 10)
}

/// `s` starts with the signature of a JPEG picture.
pub open spec fn is_jpeg(s: Seq<u8>) -> bool {
    at(s, 0, 255) && at(s, 1, 216) && at(s, 2, 255)
}

/// `s` starts with one of the two signatures of a GIF picture, `GIF89a` and
/// `GIF87a`.
pub open spec fn is_gif(s: Seq<u8>) -> bool {
    at(s, 0, 71) && at(s, 1, 73) && at(s, 2, 70) && at(s, 3, 56) && (at(s, 4, 57) || at(s, 4, 55))
        && at(s, 5, 97)
}

/// `s` starts with `RIFF`, the signature under which WebP content is guessed.
pub open spec fn is_riff(s: Seq<u8>) -> bool {
    at(s, 0, 82) && at(s, 1, 73) && at(s, 2, 70) && at(s, 3, 70)
}

/// `s` starts with one of the two signatures under which TIFF content is
/// guessed, `MM.*` and `II*.`.
pub open spec fn is_tiff(s: Seq<u8>) -> bool {
    ||| at(s, 0, 77) && at(s, 1, 77) && at(s, 2, 46) && at(s, 3, 42)
    ||| at(s, 0, 73) && at(s, 1, 73) && at(s, 2, 42) && at(s, 3, 46)
}

/// `s` starts with the signature of icon content: the bytes 0, 0, 1, 0.
pub open spec fn is_icon(s: Seq<u8>) -> bool {
    at(s, 0, 0) && at(s, 1, 0) && at(s, 2, 1) && at(s, 3, 0)
}

/// `s` starts with the signature of Radiance content, `#?RADIANCE`.
pub open spec fn is_radiance(s: Seq<u8>) -> bool {
    at(s, 0, 35) && at(s, 1, 63) && at(s, 2, 82) && at(s, 3, 65) && at(s, 4, 68) && at(s, 5, 73)
        && at(s, 6, 65) && at(s, 7, 78) && at(s, 8, 67) && at(s, 9, 69)
}

/// `s` starts with a signature of Netpbm content: `P` and a digit from 1 to 7.
pub open spec fn is_netpbm(s: Seq<u8>) -> bool {
    at(s, 0, 80) && s.len() >= 2 && 49 <= s[1] <= 55
}

/// `s` starts with the signature of bitmap content, `BM`.
pub open spec fn is_bitmap(s: Seq<u8>) -> bool {
    at(s, 0, 66) && at(s, 1, 77)
}

/// `s` starts with the signature of a format that is never handed on.
pub open spec fn is_refused_format(s: Seq<u8>) -> bool {
    is_png(s) || is_jpeg(s) || is_gif(s) || is_riff(s) || is_tiff(s) || is_icon(s) || is_radiance(
        s,
    )
}

/// `b` is one of the six bytes that separate the words of a Netpbm header:
/// tab, line feed, vertical tab, form feed, carriage return, space.
pub open spec fn is_blank(b: u8) -> bool {
    b == 9 || b == 10 || b == 11 || b == 12 || b == 13 || b == 32
}

/// `b` is an ASCII decimal digit.
pub open spec fn is_digit(b: u8) -> bool {
    48 <= b <= 57
}

/// The first position at or after `i` that starts a word: blanks are passed
/// over, and so is every comment, which runs from a `#` to the next line feed
/// or carriage return. `in_comment` tells whether position `i` lies inside a
/// comment.
pub open spec fn skip_gap(s: Seq<u8>, i: int, in_comment: bool) -> int
    decreases s.len() - i,
{
    if !(0 <= i < s.len()) {
        i
    } else if in_comment {
        skip_gap(s, i + 1, !(s[i] == 10 || s[i] == 13))
    } else if s[i] == 35 {
        skip_gap(s, i + 1, true)
    } else if is_blank(s[i]) {
        skip_gap(s, i + 1, false)
    } else {
        i
    }
}

/// The first position at or after `i` that holds no digit.
pub open spec fn digits_end(s: Seq<u8>, i: int) -> int
    decreases s.len() - i,
{
    if 0 <= i < s.len() && is_digit(s[i]) {
        digits_end(s, i + 1)
    } else {
        i
    }
}

/// The number that the digits in `s[i..j]` spell.
pub open spec fn decimal_value(s: Seq<u8>, i: int, j: int) -> nat
    decreases j - i,
{
    if j <= i {
        0
    } else {
        decimal_value(s, i, j - 1) * 10 + (s[j - 1] - 48) as nat
    }
}

/// The side length written at or after position `i`, with the position where
/// it ends: blanks and comments, then one to `MAX_DIGITS` digits that spell a
/// number from 1 to `MAX_SIDE`, then a blank or the end of the content.
pub open spec fn side_at(s: Seq<u8>, i: int) -> Option<(nat, int)> {
    let a = skip_gap(s, i, false);
    let b = digits_end(s, a);
    if a < b && b - a <= MAX_DIGITS && (b == s.len() || is_blank(s[b])) && 1 <= decimal_value(
        s,
        a,
        b,
    ) <= MAX_SIDE {
        Some((decimal_value(s, a, b), b))
    } else {
        None
    }
}

/// Netpbm content of one of the six classic kinds whose header starts with a
/// width and a height that ask for at most eight pixels per byte of content.
pub open spec fn netpbm_admitted(s: Seq<u8>) -> bool {
    &&& s[1] <= 54
    &&& side_at(s, 2) matches Some((width, after_width))
    &&& side_at(s, after_width) matches Some((height, _))
    &&& width * height / 8 <= s.len()
}

/// The 16-bit number stored at `i`, low byte first.
pub open spec fn le16(s: Seq<u8>, i: int) -> int {
    s[i] + 256 * s[i + 1]
}

/// The 32-bit number stored at `i`, low byte first.
pub open spec fn le32(s: Seq<u8>, i: int) -> int {
    s[i] + 256 * s[i + 1] + 65536 * s[i + 2] + 16777216 * s[i + 3]
}

/// The number of rows that the height field `field` of a bitmap header
/// stands for: itself, or its two's complement for a picture stored top
/// down.
pub open spec fn bitmap_rows(field: int) -> int {
    if field < 0x8000_0000 {
        field
    } else {
        0x1_0000_0000 - field
    }
}

/// Bitmap content with an info header, no compression, 24 or 32 bits per
/// pixel, a width and height within the limits, and no more pixels than
/// bytes of content.
pub open spec fn bitmap_admitted(s: Seq<u8>) -> bool {
    &&& s.len() >= 34
    &&& {
        let size = le32(s, 14);
        size == 40 || size == 52 || size == 56 || size == 108 || size == 124
    }
    &&& 1 <= le32(s, 18) <= MAX_BITMAP_SIDE
    &&& 1 <= bitmap_rows(le32(s, 22)) <= MAX_BITMAP_SIDE
    &&& le32(s, 18) * bitmap_rows(le32(s, 22)) <= MAX_BITMAP_PIXELS
    &&& le32(s, 18) * bitmap_rows(le32(s, 22)) <= s.len()
    &&& (le16(s, 28) == 24 || le16(s, 28) == 32)
    &&& le32(s, 30) == 0
}

/// The content may be handed to the decoder.
pub open spec fn admitted(s: Seq<u8>) -> bool {
    if is_netpbm(s) {
        netpbm_admitted(s)
    } else if is_bitmap(s) {
        bitmap_admitted(s)
    } else {
        !is_refused_format(s)
    }
}

/// A run of digits does not end before it starts.
pub proof fn lemma_digits_reach(s: Seq<u8>, i: int)
    ensures
        digits_end(s, i) >= i,
    decreases s.len() - i,
{
    if 0 <= i < s.len() && is_digit(s[i]) {
        lemma_digits_reach(s, i + 1);
    }
}

/// Content shorter than two bytes carries no signature and is admitted.
pub proof fn lemma_short_content_admitted(s: Seq<u8>)
    requires
        s.len() < 2,
    ensures
        admitted(s),
{
}

fn byte_at(content: &[u8], i: usize, b: u8) -> (yes: bool)
    ensures
        yes == at(content@, i as int, b),
{
    i < content.len() && content[i] == b
}

fn blank(b: u8) -> (yes: bool)
    ensures
        yes == is_blank(b),
{
    b == 9 || b == 10 || b == 11 || b == 12 || b == 13 || b == 32
}

fn digit(b: u8) -> (yes: bool)
    ensures
        yes == is_digit(b),
{
    48 <= b && b <= 57
}

fn refused_format(content: &[u8]) -> (yes: bool)
    ensures
        yes == is_refused_format(content@),
{
    let png = byte_at(content, 0, 137) && byte_at(content, 1, 80) && byte_at(content, 2, 78)
        && byte_at(content, 3, 71) && byte_at(content, 4, 13) && byte_at(content, 5, 10)
        && byte_at(content, 6, 26) && byte_at(content, 7, 10);
    let jpeg = byte_at(content, 0, 255) && byte_at(content, 1, 216) && byte_at(content, 2, 255);
    let gif = byte_at(content, 0, 71) && byte_at(content, 1, 73) && byte_at(content, 2, 70)
        && byte_at(content, 3, 56) && (byte_at(content, 4, 57) || byte_at(content, 4, 55))
        && byte_at(content, 5, 97);
    let riff = byte_at(content, 0, 82) && byte_at(content, 1, 73) && byte_at(content, 2, 70)
        && byte_at(content, 3, 70);
    let tiff = (byte_at(content, 0, 77) && byte_at(content, 1, 77) && byte_at(content, 2, 46)
        && byte_at(content, 3, 42)) || (byte_at(content, 0, 73) && byte_at(content, 1, 73)
        && byte_at(content, 2, 42) && byte_at(content, 3, 46));
    let icon = byte_at(content, 0, 0) && byte_at(content, 1, 0) && byte_at(content, 2, 1)
        && byte_at(content, 3, 0);
    let radiance = byte_at(content, 0, 35) && byte_at(content, 1, 63) && byte_at(content, 2, 82)
        && byte_at(content, 3, 65) && byte_at(content, 4, 68) && byte_at(content, 5, 73)
        && byte_at(content, 6, 65) && byte_at(content, 7, 78) && byte_at(content, 8, 67)
        && byte_at(content, 9, 69);
    png || jpeg || gif || riff || tiff || icon || radiance
}

/// Reads the side length written at or after `from`.
fn read_side(content: &[u8], from: usize) -> (found: Option<(u32, usize)>)
    requires
        from <= content.len(),
    ensures
        match found {
            Some((value, end)) => {
                &&& side_at(content@, from as int) == Some((value as nat, end as int))
                &&& end <= content.len()
                &&& 1 <= value <= MAX_SIDE
            },
            None => side_at(content@, from as int) is None,
        },
{
    let ghost s = content@;
    let mut a = from;
    let mut in_comment = false;
    while a < content.len() && (in_comment || content[a] == 35 || blank(content[a]))
        invariant
            from <= a <= content.len(),
            s == content@,
            skip_gap(s, from as int, false) == skip_gap(s, a as int, in_comment),
        decreases content.len() - a,
    {
        if in_comment {
            in_comment = !(content[a] == 10 || content[a] == 13);
        } else if content[a] == 35 {
            in_comment = true;
        }
        a += 1;
    }
    let mut b = a;
    let mut value: u32 = 0;
    while b < content.len() && digit(content[b])
        invariant
            a <= b <= content.len(),
            b - a <= MAX_DIGITS,
            s == content@,
            skip_gap(s, from as int, false) == a,
            digits_end(s, a as int) == digits_end(s, b as int),
            value == decimal_value(s, a as int, b as int),
            b - a == 0 ==> value == 0,
            b - a == 1 ==> value < 10,
            b - a == 2 ==> value < 100,
            b - a == 3 ==> value < 1000,
            b - a == 4 ==> value < 10000,
            b - a == 5 ==> value < 100000,
        decreases content.len() - b,
    {
        if b - a == MAX_DIGITS {
            proof {
                lemma_digits_reach(s, b + 1);
            }
            return None;
        }
        value = value * 10 + (content[b] - 48) as u32;
        b += 1;
    }
    if a < b && (b == content.len() || blank(content[b])) && 1 <= value && value <= MAX_SIDE {
        Some((value, b))
    } else {
        None
    }
}

fn netpbm_ok(content: &[u8]) -> (ok: bool)
    requires
        is_netpbm(content@),
    ensures
        ok == netpbm_admitted(content@),
{
    if content[1] > 54 {
        return false;
    }
    let (width, after_width) = match read_side(content, 2) {
        Some(found) => found,
        None => {
            return false;
        },
    };
    let height = match read_side(content, after_width) {
        Some((height, _)) => height,
        None => {
            return false;
        },
    };
    proof {
        assert(width * height <= 16384 * 16384) by (nonlinear_arith)
            requires
                0 <= width <= 16384,
                0 <= height <= 16384,
        ;
    }
    (width as u64 * height as u64) / 8 <= content.len() as u64
}

fn read_le16(content: &[u8], i: usize) -> (value: u64)
    requires
        i + 2 <= content.len(),
    ensures
        value == le16(content@, i as int),
        value <= 0xffff,
{
    content[i] as u64 + 256 * (content[i + 1] as u64)
}

fn read_le32(content: &[u8], i: usize) -> (value: u64)
    requires
        i + 4 <= content.len(),
    ensures
        value == le32(content@, i as int),
        value <= 0xffff_ffff,
{
    content[i] as u64 + 256 * (content[i + 1] as u64) + 65536 * (content[i + 2] as u64) + 16777216
        * (content[i + 3] as u64)
}

fn bitmap_ok(content: &[u8]) -> (ok: bool)
    ensures
        ok == bitmap_admitted(content@),
{
    if content.len() < 34 {
        return false;
    }
    let size = read_le32(content, 14);
    if !(size == 40 || size == 52 || size == 56 || size == 108 || size == 124) {
        return false;
    }
    let width = read_le32(content, 18);
    let field = read_le32(content, 22);
    let rows = if field < 0x8000_0000 {
        field
    } else {
        0x1_0000_0000 - field
    };
    if width < 1 || width > MAX_BITMAP_SIDE || rows < 1 || rows > MAX_BITMAP_SIDE {
        return false;
    }
    proof {
        assert(width * rows <= 65535 * 65535) by (nonlinear_arith)
            requires
                0 <= width <= 65535,
                0 <= rows <= 65535,
        ;
    }
    if width * rows > MAX_BITMAP_PIXELS || width * rows > content.len() as u64 {
        return false;
    }
    let bits = read_le16(content, 28);
    (bits == 24 || bits == 32) && read_le32(content, 30) == 0
}

/// Decides whether `content` may be handed to the decoder, by its leading
/// bytes alone: the format signature, then, for Netpbm and bitmap content,
/// the header.
pub fn admits(content: &[u8]) -> (ok: bool)
    ensures
        ok == admitted(content@),
{
    if byte_at(content, 0, 80) && content.len() >= 2 && 49 <= content[1] && content[1] <= 55 {
        netpbm_ok(content)
    } else if byte_at(content, 0, 66) && byte_at(content, 1, 77) {
        bitmap_ok(content)
    } else {
        !refused_format(content)
    }
}

} // verus!

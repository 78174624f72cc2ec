use vstd::prelude::*;

use crate::text::{all_digits, digit_value, digits_value, is_digit, usize_of_text};

verus! {

/// One pixel as the 0 to 255 integer levels of its red, green and blue.
#[derive(Clone, Copy, PartialEq, Eq, Structural, Debug)]
pub struct Rgb {
    pub r: i32,
    pub g: i32,
    pub b: i32,
}

/// The ASCII decimal digits of `n`, most significant first, without leading
/// zeros.
pub open spec fn decimal_digits(n: nat) -> Seq<u8>
    decreases n,
{
    if n < 10 {
        seq![(48 + n) as u8]
    } else {
        decimal_digits(n / 10).push((48 + n % 10) as u8)
    }
}

/// The ASCII decimal text of `v`, with a `-` in front when it is negative.
pub open spec fn signed_decimal(v: int) -> Seq<u8> {
    if v < 0 {
        seq![45u8] + decimal_digits((-v) as nat)
    } else {
        decimal_digits(v as nat)
    }
}

/// The line of a pixel: its three levels separated by spaces.
pub open spec fn pixel_line(p: Rgb) -> Seq<u8> {
    signed_decimal(p.r as int) + seq![32u8] + signed_decimal(p.g as int) + seq![32u8]
        + signed_decimal(p.b as int) + seq![10u8]
}

/// The lines of all pixels, in order.
pub open spec fn pixel_lines(pixels: Seq<Rgb>) -> Seq<u8>
    decreases pixels.len(),
{
    if pixels.len() == 0 {
        Seq::empty()
    } else {
        pixel_lines(pixels.drop_last()) + pixel_line(pixels.last())
    }
}

/// The header of an ASCII PPM image: the `P3` magic line, the width and the
/// height, and the maximum level 255.
pub open spec fn ppm_header(width: nat, height: nat) -> Seq<u8> {
    seq![80u8, 51u8, 10u8] + decimal_digits(width) + seq![32u8] + decimal_digits(height) + seq![
        10u8,
    ] + seq![50u8, 53u8, 53u8, 10u8]
}

/// The whole text of an ASCII PPM image.
pub open spec fn ppm_text(width: nat, height: nat, pixels: Seq<Rgb>) -> Seq<u8> {
    ppm_header(width, height) + pixel_lines(pixels)
}

/// Appends the decimal digits of `n`.
pub fn push_decimal(out: &mut Vec<u8>, n: u64)
    ensures
        final(out)@ == old(out)@ + decimal_digits(n as nat),
    decreases n,
{
    if n >= 10 {
        push_decimal(out, n / 10);
    }
    let d = (48 + n % 10) as u8;
    out.push(d);
    assert(out@ =~= old(out)@ + decimal_digits(n as nat));
}

/// Appends the decimal text of `v`, with a `-` in front when it is negative.
pub fn push_signed_decimal(out: &mut Vec<u8>, v: i32)
    ensures
        final(out)@ == old(out)@ + signed_decimal(v as int),
{
    if v < 0 {
        out.push(45u8);
        let magnitude = (0i64 - (v as i64)) as u64;
        push_decimal(out, magnitude);
        assert(out@ =~= old(out)@ + signed_decimal(v as int));
    } else {
        push_decimal(out, v as u64);
    }
}

/// Encodes an image as ASCII PPM (`P3`) text: the header with `width` and
/// `height`, then one line per pixel in the order given.
pub fn encode_ppm(width: usize, height: usize, pixels: &Vec<Rgb>) -> (out: Vec<u8>)
    ensures
        out@ == ppm_text(width as nat, height as nat, pixels@),
{
    let mut out: Vec<u8> = Vec::new();
    out.push(80u8);
    out.push(51u8);
    out.push(10u8);
    push_decimal(&mut out, width as u64);
    out.push(32u8);
    push_decimal(&mut out, height as u64);
    out.push(10u8);
    out.push(50u8);
    out.push(53u8);
    out.push(53u8);
    out.push(10u8);
    assert(out@ =~= ppm_header(width as nat, height as nat));
    let mut i: usize = 0;
    while i < pixels.len()
        invariant
            i <= pixels@.len(),
            out@ == ppm_header(width as nat, height as nat) + pixel_lines(pixels@.take(i as int)),
        decreases pixels@.len() - i,
    {
        let p = pixels[i];
        let ghost before = out@;
        push_signed_decimal(&mut out, p.r);
        out.push(32u8);
        push_signed_decimal(&mut out, p.g);
        out.push(32u8);
        push_signed_decimal(&mut out, p.b);
        out.push(10u8);
        assert(pixels@.take(i + 1).drop_last() =~= pixels@.take(i as int));
        assert(out@ =~= before + pixel_line(p));
        i = i + 1;
    }
    assert(pixels@.take(pixels@.len() as int) =~= pixels@);
    out
}


/// The characters of an ASCII text.
pub open spec fn ascii_chars(bytes: Seq<u8>) -> Seq<char> {
    bytes.map_values(|b: u8| b as char)
}

/// The decimal digits of `n` are digits, and they denote `n`.
pub proof fn lemma_decimal_digits_denote(n: nat)
    ensures
        ascii_chars(decimal_digits(n)).len() > 0,
        all_digits(ascii_chars(decimal_digits(n))),
        digits_value(ascii_chars(decimal_digits(n))) == n,
    decreases n,
{
    let c = ascii_chars(decimal_digits(n));
    if n < 10 {
        assert(c =~= seq![((48 + n) as u8) as char]);
        assert(c.drop_last() =~= Seq::<char>::empty());
        assert(digit_value(c.last()) == n);
        assert(digits_value(c.drop_last()) == 0);
    } else {
        lemma_decimal_digits_denote(n / 10);
        let p = ascii_chars(decimal_digits(n / 10));
        let last = ((48 + n % 10) as u8) as char;
        assert(c =~= p.push(last));
        assert(c.drop_last() =~= p);
        assert(all_digits(c)) by {
            assert forall|i: int| 0 <= i < c.len() implies is_digit(#[trigger] c[i]) by {
                if i < p.len() {
                    assert(c[i] == p[i]);
                }
            }
        }
        assert(digit_value(last) == n % 10);
        assert(n == (n / 10) * 10 + n % 10) by (nonlinear_arith);
        assert(digits_value(c.drop_last()) == n / 10);
    }
}

/// The width and height written in an image header read back, as command-line
/// numbers are read, as the same width and height.
pub proof fn lemma_header_size_reads_back(width: usize, height: usize)
    ensures
        usize_of_text(ascii_chars(decimal_digits(width as nat))) == Some(width),
        usize_of_text(ascii_chars(decimal_digits(height as nat))) == Some(height),
{
    lemma_decimal_digits_denote(width as nat);
    lemma_decimal_digits_denote(height as nat);
    let w = ascii_chars(decimal_digits(width as nat));
    let h = ascii_chars(decimal_digits(height as nat));
    assert(is_digit(w[0]));
    assert(is_digit(h[0]));
}


/// A field of a PPM line: non-empty text without spaces or line ends.
pub open spec fn is_field(s: Seq<u8>) -> bool {
    s.len() > 0 && forall|k: int| 0 <= k < s.len() ==> #[trigger] s[k] != 32 && s[k] != 10
}

/// The number that a field denotes when it is read back: an optional `-`,
/// then decimal digits.
pub open spec fn field_value(s: Seq<u8>) -> int {
    if s.len() > 0 && s[0] == 45u8 {
        -(digits_value(ascii_chars(s.drop_first())) as int)
    } else {
        digits_value(ascii_chars(s)) as int
    }
}

/// The decimal digits of a number hold no space or line end, and do not begin
/// with a `-`.
proof fn lemma_decimal_digits_field(n: nat)
    ensures
        is_field(decimal_digits(n)),
        decimal_digits(n)[0] != 45u8,
        digits_value(ascii_chars(decimal_digits(n))) == n,
{
    lemma_decimal_digits_denote(n);
    let d = decimal_digits(n);
    let c = ascii_chars(d);
    assert forall|k: int| 0 <= k < d.len() implies #[trigger] d[k] != 32 && d[k] != 10 && 48 <= d[k] <= 57 by {
        assert(c[k] == d[k] as char);
        assert(is_digit(c[k]));
    }
    assert(48 <= d[0] <= 57);
}

/// The signed decimal text of a number is a field that reads back as that
/// number.
pub proof fn lemma_signed_decimal_reads_back(v: int)
    ensures
        is_field(signed_decimal(v)),
        field_value(signed_decimal(v)) == v,
{
    if v < 0 {
        let m = (-v) as nat;
        lemma_decimal_digits_field(m);
        let s = signed_decimal(v);
        assert(s.drop_first() =~= decimal_digits(m));
        assert forall|k: int| 0 <= k < s.len() implies #[trigger] s[k] != 32 && s[k] != 10 by {
            if k > 0 {
                assert(s[k] == decimal_digits(m)[k - 1]);
            }
        }
    } else {
        lemma_decimal_digits_field(v as nat);
    }
}

/// A pixel's line reads back as its red, green and blue levels, in that
/// order: three fields separated by single spaces, then a line end.
pub proof fn lemma_pixel_line_reads_back(p: Rgb)
    ensures
        ({
            let l = pixel_line(p);
            exists|i: int, j: int|
                #![trigger l.subrange(0, i), l.subrange(i + 1, j)]
                0 < i < j && j + 1 < l.len() && l[i] == 32 && l[j] == 32 && l[l.len() - 1] == 10
                    && is_field(l.subrange(0, i)) && is_field(l.subrange(i + 1, j)) && is_field(
                    l.subrange(j + 1, l.len() - 1),
                ) && field_value(l.subrange(0, i)) == p.r && field_value(l.subrange(i + 1, j))
                    == p.g && field_value(l.subrange(j + 1, l.len() - 1)) == p.b
        }),
{
    let r = signed_decimal(p.r as int);
    let g = signed_decimal(p.g as int);
    let b = signed_decimal(p.b as int);
    lemma_signed_decimal_reads_back(p.r as int);
    lemma_signed_decimal_reads_back(p.g as int);
    lemma_signed_decimal_reads_back(p.b as int);
    let l = pixel_line(p);
    let i = r.len() as int;
    let j = i + 1 + g.len();
    assert(l =~= r + seq![32u8] + g + seq![32u8] + b + seq![10u8]);
    assert(l.subrange(0, i) =~= r);
    assert(l.subrange(i + 1, j) =~= g);
    assert(l.subrange(j + 1, l.len() - 1) =~= b);
    assert(l[i] == 32);
    assert(l[j] == 32);
}

/// A header's size line reads back as the width and then the height: after
/// the `P3` line come two fields separated by a space, a line end, and the
/// `255` line.
pub proof fn lemma_header_reads_back(width: nat, height: nat)
    ensures
        ({
            let t = ppm_header(width, height);
            exists|i: int, j: int|
                #![trigger t.subrange(3, i), t.subrange(i + 1, j)]
                3 < i < j && t.subrange(0, 3) == seq![80u8, 51u8, 10u8] && t[i] == 32 && t[j]
                    == 10 && is_field(t.subrange(3, i)) && is_field(t.subrange(i + 1, j))
                    && field_value(t.subrange(3, i)) == width && field_value(t.subrange(i + 1, j))
                    == height && t.subrange(j + 1, t.len() as int) == seq![50u8, 53u8, 53u8, 10u8]
        }),
{
    lemma_decimal_digits_field(width);
    lemma_decimal_digits_field(height);
    let w = decimal_digits(width);
    let h = decimal_digits(height);
    let t = ppm_header(width, height);
    let i: int = 3 + w.len() as int;
    let j: int = i + 1 + h.len();
    assert(t =~= seq![80u8, 51u8, 10u8] + w + seq![32u8] + h + seq![10u8] + seq![
        50u8,
        53u8,
        53u8,
        10u8,
    ]);
    assert(t.subrange(0, 3) =~= seq![80u8, 51u8, 10u8]);
    assert(t.subrange(3, i) =~= w);
    assert(t.subrange(i + 1, j) =~= h);
    assert(t.subrange(j + 1, t.len() as int) =~= seq![50u8, 53u8, 53u8, 10u8]);
    assert(t[i] == 32);
    assert(t[j] == 10);
}

/// The pixel lines come in the pixels' order: the lines of the first `k`
/// pixels begin the text, the line of pixel `k` follows them, and nothing
/// follows the last pixel's line.
pub proof fn lemma_pixel_lines_in_order(pixels: Seq<Rgb>, k: int)
    requires
        0 <= k < pixels.len(),
    ensures
        ({
            let all = pixel_lines(pixels);
            let before = pixel_lines(pixels.take(k));
            let line = pixel_line(pixels[k]);
            &&& all.len() >= before.len() + line.len()
            &&& all.subrange(0, before.len() as int) == before
            &&& all.subrange(before.len() as int, (before.len() + line.len()) as int) == line
            &&& k == pixels.len() - 1 ==> all.len() == before.len() + line.len()
        }),
    decreases pixels.len(),
{
    let n = pixels.len() - 1;
    let rest = pixels.drop_last();
    if k == n {
        assert(rest =~= pixels.take(k));
        assert(pixel_lines(pixels) == pixel_lines(rest) + pixel_line(pixels[n]));
        assert(pixel_lines(pixels).subrange(0, pixel_lines(rest).len() as int) =~= pixel_lines(rest));
        assert(pixel_lines(pixels).subrange(
            pixel_lines(rest).len() as int,
            (pixel_lines(rest).len() + pixel_line(pixels[n]).len()) as int,
        ) =~= pixel_line(pixels[n]));
    } else {
        lemma_pixel_lines_in_order(rest, k);
        assert(rest.take(k) =~= pixels.take(k));
        assert(rest[k] == pixels[k]);
        let all = pixel_lines(pixels);
        let sub = pixel_lines(rest);
        assert(all == sub + pixel_line(pixels[n]));
        let before = pixel_lines(pixels.take(k));
        let line = pixel_line(pixels[k]);
        assert(all.subrange(0, before.len() as int) =~= sub.subrange(0, before.len() as int));
        assert(all.subrange(before.len() as int, (before.len() + line.len()) as int) =~= sub.subrange(
            before.len() as int,
            (before.len() + line.len()) as int,
        ));
    }
}

} // verus!

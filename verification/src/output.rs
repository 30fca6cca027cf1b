//! Encoding of a quantised pixel buffer: ASCII PPM text and the flat RGB
//! byte buffer that an RGB8 image encoder takes.
use vstd::prelude::*;

verus! {

/// One pixel after gamma encoding and quantisation, each channel in
/// `0..=255`.
#[derive(Clone, Copy, Debug, PartialEq, Eq, Structural)]
pub struct Rgb8 {
    pub r: u8,
    pub g: u8,
    pub b: u8,
}

/// The ASCII digit for `d`.
pub open spec fn digit_byte(d: nat) -> u8
    recommends
        d < 10,
{
    (48 + d) as u8
}

/// The decimal numeral of `n`, most significant digit first, without
/// leading zeros.
pub open spec fn decimal_digits(n: nat) -> Seq<u8>
    decreases n,
{
    if n < 10 {
        seq![digit_byte(n)]
    } else {
        decimal_digits(n / 10).push(digit_byte(n % 10))
    }
}

/// The number that a string of ASCII digits denotes.
pub open spec fn decimal_value(digits: Seq<u8>) -> nat
    decreases digits.len(),
{
    if digits.len() == 0 {
        0
    } else {
        (decimal_value(digits.drop_last()) * 10 + (digits.last() - 48)) as nat
    }
}

/// Whether `b` is an ASCII digit.
pub open spec fn is_digit(b: u8) -> bool {
    48 <= b <= 57
}

/// A numeral consists of digits only, starts with `0` only when it is `0`,
/// and denotes the number it was made from: reading the text back recovers
/// every value exactly.
pub proof fn lemma_decimal_round_trip(n: nat)
    ensures
        decimal_value(decimal_digits(n)) == n,
        decimal_digits(n).len() >= 1,
        forall|k: int| 0 <= k < decimal_digits(n).len() ==> is_digit(#[trigger] decimal_digits(n)[k]),
        decimal_digits(n)[0] == 48 ==> n == 0,
    decreases n,
{
    if n < 10 {
        assert(decimal_digits(n).drop_last() =~= Seq::<u8>::empty());
        assert(decimal_value(Seq::<u8>::empty()) == 0);
    } else {
        lemma_decimal_round_trip(n / 10);
        assert(decimal_digits(n).drop_last() =~= decimal_digits(n / 10));
    }
}

pub open spec fn space() -> Seq<u8> {
    seq![32u8]
}

pub open spec fn newline() -> Seq<u8> {
    seq![10u8]
}

/// The three header lines: the magic of the ASCII format, width and
/// height, and the maximum channel value 255.
pub open spec fn ppm_header(width: u32, height: u32) -> Seq<u8> {
    seq![80u8, 51u8, 10u8] + decimal_digits(width as nat) + space() + decimal_digits(height as nat)
        + newline() + seq![50u8, 53u8, 53u8, 10u8]
}

/// One pixel's line: red, green and blue, separated by single spaces.
pub open spec fn ppm_line(p: Rgb8) -> Seq<u8> {
    decimal_digits(p.r as nat) + space() + decimal_digits(p.g as nat) + space() + decimal_digits(
        p.b as nat,
    ) + newline()
}

/// The pixel lines in buffer order.
pub open spec fn ppm_body(pixels: Seq<Rgb8>) -> Seq<u8>
    decreases pixels.len(),
{
    if pixels.len() == 0 {
        Seq::empty()
    } else {
        ppm_body(pixels.drop_last()) + ppm_line(pixels.last())
    }
}

/// The whole PPM document.
pub open spec fn ppm_document(width: u32, height: u32, pixels: Seq<Rgb8>) -> Seq<u8> {
    ppm_header(width, height) + ppm_body(pixels)
}

/// Two texts that agree, each made of a part free of the separator, the
/// separator, and a rest, agree part by part.
proof fn lemma_split_at_separator(a1: Seq<u8>, r1: Seq<u8>, a2: Seq<u8>, r2: Seq<u8>, sep: u8)
    requires
        a1 + seq![sep] + r1 == a2 + seq![sep] + r2,
        forall|k: int| 0 <= k < a1.len() ==> a1[k] != sep,
        forall|k: int| 0 <= k < a2.len() ==> a2[k] != sep,
    ensures
        a1 == a2,
        r1 == r2,
{
    let s1 = a1 + seq![sep] + r1;
    let s2 = a2 + seq![sep] + r2;
    assert(s1.len() == a1.len() + 1 + r1.len());
    assert(s2.len() == a2.len() + 1 + r2.len());
    if a1.len() < a2.len() {
        assert(s1[a1.len() as int] == sep);
        assert(s2[a1.len() as int] == a2[a1.len() as int]);
        assert(false);
    }
    if a2.len() < a1.len() {
        assert(s2[a2.len() as int] == sep);
        assert(s1[a2.len() as int] == a1[a2.len() as int]);
        assert(false);
    }
    assert forall|k: int| 0 <= k < a1.len() implies a1[k] == a2[k] by {
        assert(s1[k] == a1[k]);
        assert(s2[k] == a2[k]);
    }
    assert(a1 =~= a2);
    assert forall|k: int| 0 <= k < r1.len() implies r1[k] == r2[k] by {
        assert(s1[a1.len() + 1 + k] == r1[k]);
        assert(s2[a2.len() + 1 + k] == r2[k]);
    }
    assert(r1 =~= r2);
}

/// A numeral holds neither a space nor a line feed.
proof fn lemma_digits_hold_no_separator(n: nat)
    ensures
        forall|k: int| 0 <= k < decimal_digits(n).len() ==> decimal_digits(n)[k] != 32,
        forall|k: int| 0 <= k < decimal_digits(n).len() ==> decimal_digits(n)[k] != 10,
{
    lemma_decimal_round_trip(n);
    assert forall|k: int| 0 <= k < decimal_digits(n).len() implies decimal_digits(n)[k] != 32
        && decimal_digits(n)[k] != 10 by {
        assert(is_digit(decimal_digits(n)[k]));
    }
}

/// Different numbers have different numerals.
pub proof fn lemma_decimal_digits_injective(a: nat, b: nat)
    requires
        decimal_digits(a) == decimal_digits(b),
    ensures
        a == b,
{
    lemma_decimal_round_trip(a);
    lemma_decimal_round_trip(b);
}

/// The part of a pixel's line before its line feed.
spec fn line_content(p: Rgb8) -> Seq<u8> {
    decimal_digits(p.r as nat) + space() + decimal_digits(p.g as nat) + space() + decimal_digits(
        p.b as nat,
    )
}

proof fn lemma_line_content(p: Rgb8)
    ensures
        ppm_line(p) == line_content(p) + seq![10u8] + Seq::<u8>::empty(),
        forall|k: int| 0 <= k < line_content(p).len() ==> line_content(p)[k] != 10,
{
    lemma_digits_hold_no_separator(p.r as nat);
    lemma_digits_hold_no_separator(p.g as nat);
    lemma_digits_hold_no_separator(p.b as nat);
    assert(ppm_line(p) =~= line_content(p) + seq![10u8] + Seq::<u8>::empty());
}

/// A pixel's line determines the pixel.
pub proof fn lemma_ppm_line_injective(p: Rgb8, q: Rgb8)
    requires
        ppm_line(p) == ppm_line(q),
    ensures
        p == q,
{
    let (a1, b1, c1) = (
        decimal_digits(p.r as nat),
        decimal_digits(p.g as nat),
        decimal_digits(p.b as nat),
    );
    let (a2, b2, c2) = (
        decimal_digits(q.r as nat),
        decimal_digits(q.g as nat),
        decimal_digits(q.b as nat),
    );
    lemma_digits_hold_no_separator(p.r as nat);
    lemma_digits_hold_no_separator(p.g as nat);
    lemma_digits_hold_no_separator(p.b as nat);
    lemma_digits_hold_no_separator(q.r as nat);
    lemma_digits_hold_no_separator(q.g as nat);
    lemma_digits_hold_no_separator(q.b as nat);
    let rest1 = b1 + seq![32u8] + (c1 + seq![10u8]);
    let rest2 = b2 + seq![32u8] + (c2 + seq![10u8]);
    assert(ppm_line(p) =~= a1 + seq![32u8] + rest1);
    assert(ppm_line(q) =~= a2 + seq![32u8] + rest2);
    lemma_split_at_separator(a1, rest1, a2, rest2, 32);
    lemma_split_at_separator(b1, c1 + seq![10u8], b2, c2 + seq![10u8], 32);
    assert(c1 + seq![10u8] =~= c1 + seq![10u8] + Seq::<u8>::empty());
    assert(c2 + seq![10u8] =~= c2 + seq![10u8] + Seq::<u8>::empty());
    lemma_split_at_separator(c1, Seq::<u8>::empty(), c2, Seq::<u8>::empty(), 10);
    lemma_decimal_digits_injective(p.r as nat, q.r as nat);
    lemma_decimal_digits_injective(p.g as nat, q.g as nat);
    lemma_decimal_digits_injective(p.b as nat, q.b as nat);
}

/// The lines of a buffer are the first pixel's line and then the lines of
/// the others.
proof fn lemma_body_front(pixels: Seq<Rgb8>)
    requires
        pixels.len() > 0,
    ensures
        ppm_body(pixels) == ppm_line(pixels[0]) + ppm_body(pixels.drop_first()),
    decreases pixels.len(),
{
    if pixels.len() == 1 {
        assert(pixels.drop_last() =~= Seq::<Rgb8>::empty());
        assert(pixels.drop_first() =~= Seq::<Rgb8>::empty());
        assert(ppm_body(pixels) =~= ppm_line(pixels[0]) + ppm_body(pixels.drop_first()));
    } else {
        lemma_body_front(pixels.drop_last());
        assert(pixels.drop_last().drop_first() =~= pixels.drop_first().drop_last());
        assert(pixels.drop_first().last() == pixels.last());
        assert(ppm_body(pixels) =~= ppm_line(pixels[0]) + ppm_body(pixels.drop_first()));
    }
}

/// The pixel lines determine the buffer.
pub proof fn lemma_ppm_body_injective(p: Seq<Rgb8>, q: Seq<Rgb8>)
    requires
        ppm_body(p) == ppm_body(q),
    ensures
        p == q,
    decreases p.len(),
{
    if p.len() == 0 || q.len() == 0 {
        if p.len() > 0 {
            lemma_body_front(p);
            lemma_decimal_round_trip(p[0].r as nat);
            assert(ppm_line(p[0]).len() > 0);
        }
        if q.len() > 0 {
            lemma_body_front(q);
            lemma_decimal_round_trip(q[0].r as nat);
            assert(ppm_line(q[0]).len() > 0);
        }
        assert(p =~= q);
    } else {
        lemma_body_front(p);
        lemma_body_front(q);
        lemma_line_content(p[0]);
        lemma_line_content(q[0]);
        let rest_p = ppm_body(p.drop_first());
        let rest_q = ppm_body(q.drop_first());
        assert(ppm_body(p) =~= line_content(p[0]) + seq![10u8] + rest_p);
        assert(ppm_body(q) =~= line_content(q[0]) + seq![10u8] + rest_q);
        lemma_split_at_separator(line_content(p[0]), rest_p, line_content(q[0]), rest_q, 10);
        lemma_ppm_line_injective(p[0], q[0]);
        lemma_ppm_body_injective(p.drop_first(), q.drop_first());
        assert(p =~= seq![p[0]] + p.drop_first());
        assert(q =~= seq![q[0]] + q.drop_first());
    }
}

/// A PPM document determines the pixel buffer it was written from: reading
/// the text back recovers every channel of every pixel.
pub proof fn lemma_ppm_document_determines_pixels(
    width: u32,
    height: u32,
    p: Seq<Rgb8>,
    q: Seq<Rgb8>,
)
    requires
        ppm_document(width, height, p) == ppm_document(width, height, q),
    ensures
        p == q,
{
    let header = ppm_header(width, height);
    let d1 = ppm_document(width, height, p);
    let d2 = ppm_document(width, height, q);
    assert(d1.len() == header.len() + ppm_body(p).len());
    assert(d2.len() == header.len() + ppm_body(q).len());
    assert forall|k: int| 0 <= k < ppm_body(p).len() implies ppm_body(p)[k] == ppm_body(q)[k] by {
        assert(d1[header.len() + k] == ppm_body(p)[k]);
        assert(d2[header.len() + k] == ppm_body(q)[k]);
    }
    assert(ppm_body(p) =~= ppm_body(q));
    lemma_ppm_body_injective(p, q);
}

/// Appends the decimal numeral of `n`.
pub fn push_decimal(out: &mut Vec<u8>, n: u32)
    ensures
        final(out)@ == old(out)@ + decimal_digits(n as nat),
    decreases n,
{
    if n >= 10 {
        push_decimal(out, n / 10);
    }
    let d: u8 = (n % 10) as u8;
    out.push(48 + d);
    assert(final(out)@ =~= old(out)@ + decimal_digits(n as nat));
}

/// Appends the header lines.
pub fn push_ppm_header(out: &mut Vec<u8>, width: u32, height: u32)
    ensures
        final(out)@ == old(out)@ + ppm_header(width, height),
{
    out.push(80);
    out.push(51);
    out.push(10);
    push_decimal(out, width);
    out.push(32);
    push_decimal(out, height);
    out.push(10);
    out.push(50);
    out.push(53);
    out.push(53);
    out.push(10);
    assert(final(out)@ =~= old(out)@ + ppm_header(width, height));
}

/// Appends one pixel's line.
pub fn push_ppm_line(out: &mut Vec<u8>, p: Rgb8)
    ensures
        final(out)@ == old(out)@ + ppm_line(p),
{
    push_decimal(out, p.r as u32);
    out.push(32);
    push_decimal(out, p.g as u32);
    out.push(32);
    push_decimal(out, p.b as u32);
    out.push(10);
    assert(final(out)@ =~= old(out)@ + ppm_line(p));
}

/// Encodes the buffer as an ASCII PPM document: the header, then one line
/// per pixel in buffer order, so the top image row comes first.
pub fn encode_ppm(width: u32, height: u32, pixels: &Vec<Rgb8>) -> (text: Vec<u8>)
    ensures
        text@ == ppm_document(width, height, pixels@),
{
    let mut text: Vec<u8> = Vec::new();
    push_ppm_header(&mut text, width, height);
    assert(text@ =~= ppm_header(width, height));
    let mut k: usize = 0;
    assert(pixels@.take(0) =~= Seq::<Rgb8>::empty());
    while k < pixels.len()
        invariant
            k <= pixels@.len(),
            text@ == ppm_header(width, height) + ppm_body(pixels@.take(k as int)),
        decreases pixels@.len() - k,
    {
        push_ppm_line(&mut text, pixels[k]);
        proof {
            assert(pixels@.take(k + 1).drop_last() =~= pixels@.take(k as int));
            assert(text@ =~= ppm_header(width, height) + ppm_body(pixels@.take(k + 1)));
        }
        k = k + 1;
    }
    assert(pixels@.take(k as int) =~= pixels@);
    text
}

/// The channel bytes of the buffer, three per pixel in the order red,
/// green, blue.
pub open spec fn rgb_sequence(pixels: Seq<Rgb8>) -> Seq<u8> {
    Seq::new(
        3 * pixels.len(),
        |n: int|
            if n % 3 == 0 {
                pixels[n / 3].r
            } else if n % 3 == 1 {
                pixels[n / 3].g
            } else {
                pixels[n / 3].b
            },
    )
}

/// Flattens the buffer into the byte layout of an RGB8 image: three
/// channels per pixel, pixels in buffer order.
pub fn rgb_bytes(pixels: &Vec<Rgb8>) -> (bytes: Vec<u8>)
    ensures
        bytes@ == rgb_sequence(pixels@),
        bytes@.len() == 3 * pixels@.len(),
{
    let mut bytes: Vec<u8> = Vec::new();
    let mut k: usize = 0;
    while k < pixels.len()
        invariant
            k <= pixels@.len(),
            bytes@.len() == 3 * k,
            forall|n: int| 0 <= n < 3 * k ==> #[trigger] bytes@[n] == rgb_sequence(pixels@)[n],
        decreases pixels@.len() - k,
    {
        let p = pixels[k];
        bytes.push(p.r);
        bytes.push(p.g);
        bytes.push(p.b);
        k = k + 1;
    }
    assert(bytes@ =~= rgb_sequence(pixels@));
    bytes
}

} // verus!

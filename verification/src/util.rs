//! Encoding images to the portable text pixmap format and reading them
//! back, plus the binary bitmap encoding.
//!
//! The encoder and the parser are exact inverses: parsing an encoded
//! image yields the original dimensions and pixels, which the parser's
//! contract states for every image the format can hold.

use vstd::prelude::*;
use crate::{BGR, ImageBGR, ScreenCaptureError};
use crate::raster_image::RasterImageBGR;

verus! {

/// Whether a byte is an ASCII decimal digit.
pub open spec fn spec_is_digit(b: u8) -> bool {
    48 <= b <= 57
}

/// The ASCII decimal digits of a number, most significant first.
pub open spec fn spec_digits(n: nat) -> Seq<u8>
    decreases n,
{
    if n < 10 {
        seq![(48 + n) as u8]
    } else {
        spec_digits(n / 10).push((48 + n % 10) as u8)
    }
}

/// The number a sequence of ASCII decimal digits denotes.
pub open spec fn spec_digit_val(s: Seq<u8>) -> int
    decreases s.len(),
{
    if s.len() == 0 {
        0
    } else {
        spec_digit_val(s.drop_last()) * 10 + s.last() - 48
    }
}

/// One encoded pixel: its red, green and blue values in decimal, each
/// followed by one space.
pub open spec fn spec_enc_pixel(p: BGR) -> Seq<u8> {
    spec_digits(p.r as nat) + seq![32u8] + spec_digits(p.g as nat) + seq![32u8] + spec_digits(
        p.b as nat,
    ) + seq![32u8]
}

/// A sequence of encoded pixels.
pub open spec fn spec_enc_pixels(s: Seq<BGR>) -> Seq<u8>
    decreases s.len(),
{
    if s.len() == 0 {
        Seq::empty()
    } else {
        spec_enc_pixel(s[0]) + spec_enc_pixels(s.drop_first())
    }
}

/// The encoding of the given number of rows off the front of a pixel
/// sequence: each row's pixels followed by a newline.
pub open spec fn spec_enc_rows(px: Seq<BGR>, width: nat, rows: nat) -> Seq<u8>
    decreases rows,
{
    if rows == 0 {
        Seq::empty()
    } else {
        spec_enc_pixels(px.take(width as int)) + seq![10u8] + spec_enc_rows(
            px.skip(width as int),
            width,
            (rows - 1) as nat,
        )
    }
}

/// The full text encoding of an image: the magic line, the dimensions
/// line, the value scale line, then one line per pixel row.
pub open spec fn spec_encode_ppm(width: u32, height: u32, px: Seq<BGR>) -> Seq<u8> {
    seq![80u8, 51u8, 10u8] + spec_digits(width as nat) + seq![32u8] + spec_digits(height as nat)
        + seq![10u8] + seq![50u8, 53u8, 53u8, 10u8] + spec_enc_rows(px, width as nat, height as nat)
}

/// Digits are digits, and a number has at least one of them.
pub proof fn lemma_digits_are_digits(n: nat)
    ensures
        spec_digits(n).len() >= 1,
        forall|i: int| 0 <= i < spec_digits(n).len() ==> spec_is_digit(#[trigger] spec_digits(n)[i]),
    decreases n,
{
    if n >= 10 {
        lemma_digits_are_digits(n / 10);
    }
}

/// The digits of a number denote exactly that number.
pub proof fn lemma_digits_val(n: nat)
    ensures
        spec_digit_val(spec_digits(n)) == n,
    decreases n,
{
    if n < 10 {
        assert(spec_digits(n) =~= seq![(48 + n) as u8]);
        assert(spec_digits(n).drop_last() =~= Seq::<u8>::empty());
        assert(spec_digits(n).last() == (48 + n) as u8);
        assert((48 + n) as u8 == 48 + n);
        assert(spec_digit_val(Seq::<u8>::empty()) == 0);
        assert(spec_digits(n).len() == 1);
        assert(spec_digit_val(spec_digits(n)) == spec_digit_val(spec_digits(n).drop_last()) * 10
            + spec_digits(n).last() - 48);
        assert(spec_digit_val(spec_digits(n).drop_last()) == 0);
        assert(spec_digit_val(spec_digits(n)) == n);
    } else {
        lemma_digits_val(n / 10);
        assert(spec_digits(n).drop_last() =~= spec_digits(n / 10));
        assert(spec_digits(n).last() == (48 + n % 10) as u8);
        assert((48 + n % 10) as u8 == 48 + n % 10);
        vstd::arithmetic::div_mod::lemma_fundamental_div_mod(n as int, 10);
        assert(spec_digit_val(spec_digits(n)) == (n / 10) * 10 + n % 10);
    }
}

/// A positive number's digits never start with the zero digit.
pub proof fn lemma_digits_leading(n: nat)
    requires
        n >= 1,
    ensures
        spec_digits(n)[0] != 48,
    decreases n,
{
    if n >= 10 {
        lemma_digits_leading(n / 10);
        assert(spec_digits(n)[0] == spec_digits(n / 10)[0]);
    }
}

/// A digit run that does not start with the zero digit denotes a
/// positive number.
pub proof fn lemma_digit_val_positive(s: Seq<u8>)
    requires
        s.len() >= 1,
        forall|i: int| 0 <= i < s.len() ==> spec_is_digit(#[trigger] s[i]),
        s[0] != 48,
    ensures
        spec_digit_val(s) >= 1,
    decreases s.len(),
{
    if s.len() == 1 {
    } else {
        assert(s.drop_last()[0] == s[0]);
        assert(forall|i: int| 0 <= i < s.drop_last().len() ==> spec_is_digit(
            #[trigger] s.drop_last()[i],
        ));
        lemma_digit_val_positive(s.drop_last());
    }
}

/// A canonical digit run is exactly the digits of the number it denotes:
/// non-empty, digits only, and no leading zero unless it is the single
/// zero digit.
pub proof fn lemma_canonical_digits(s: Seq<u8>)
    requires
        s.len() >= 1,
        forall|i: int| 0 <= i < s.len() ==> spec_is_digit(#[trigger] s[i]),
        s.len() == 1 || s[0] != 48,
    ensures
        spec_digit_val(s) >= 0,
        spec_digits(spec_digit_val(s) as nat) == s,
    decreases s.len(),
{
    if s.len() == 1 {
        assert(s.drop_last() =~= Seq::<u8>::empty());
        assert(spec_digit_val(Seq::<u8>::empty()) == 0);
        assert(s.last() == s[0]);
        assert(spec_digit_val(s) == s[0] - 48);
        assert(spec_digits((s[0] - 48) as nat) =~= s);
    } else {
        let t = s.drop_last();
        assert(t[0] == s[0]);
        assert(forall|i: int| 0 <= i < t.len() ==> spec_is_digit(#[trigger] t[i]));
        lemma_digit_val_positive(t);
        lemma_canonical_digits(t);
        let vd = spec_digit_val(t);
        let d = s.last() - 48;
        assert(spec_digit_val(s) == vd * 10 + d);
        vstd::arithmetic::div_mod::lemma_fundamental_div_mod_converse(vd * 10 + d, 10, vd, d);
        assert(spec_digits((vd * 10 + d) as nat) == spec_digits(((vd * 10 + d) as nat) / 10).push(
            (48 + ((vd * 10 + d) as nat) % 10) as u8,
        ));
        assert(spec_digits((vd * 10 + d) as nat) =~= s);
    }
}

/// Every proper prefix of a number's digits denotes at most the number.
pub proof fn lemma_digits_prefix_le(n: nat, k: int)
    requires
        0 <= k <= spec_digits(n).len(),
    ensures
        0 <= spec_digit_val(spec_digits(n).take(k)) <= n,
    decreases n,
{
    if k == spec_digits(n).len() {
        lemma_digits_val(n);
        assert(spec_digits(n).take(k) =~= spec_digits(n));
    } else if n < 10 {
        assert(spec_digits(n).take(k) =~= Seq::<u8>::empty());
    } else {
        assert(spec_digits(n).take(k) =~= spec_digits(n / 10).take(k));
        lemma_digits_prefix_le(n / 10, k);
    }
}

/// Appending one more pixel extends the pixel-run encoding by exactly
/// that pixel's encoding.
#[verifier::spinoff_prover]
pub proof fn lemma_enc_pixels_snoc(s: Seq<BGR>, x: int)
    requires
        0 <= x < s.len(),
    ensures
        spec_enc_pixels(s.take(x + 1)) == spec_enc_pixels(s.take(x)) + spec_enc_pixel(s[x]),
    decreases x,
{
    if x == 0 {
        assert(s.take(1).drop_first() =~= Seq::<BGR>::empty());
        assert(s.take(0) =~= Seq::<BGR>::empty());
        assert(s.take(1)[0] == s[0]);
        assert(spec_enc_pixels(Seq::<BGR>::empty()) == Seq::<u8>::empty());
        assert(spec_enc_pixels(s.take(1)) == spec_enc_pixel(s.take(1)[0]) + spec_enc_pixels(
            s.take(1).drop_first(),
        ));
        assert(spec_enc_pixels(s.take(1)) =~= spec_enc_pixel(s[0]));
        assert(spec_enc_pixels(s.take(0)) + spec_enc_pixel(s[0]) =~= spec_enc_pixel(s[0]));
    } else {
        lemma_enc_pixels_snoc(s.drop_first(), x - 1);
        assert(s.take(x + 1).drop_first() =~= s.drop_first().take(x));
        assert(s.take(x).drop_first() =~= s.drop_first().take(x - 1));
        assert(s.take(x + 1)[0] == s[0]);
        assert(s.take(x)[0] == s[0]);
        assert(s.drop_first()[x - 1] == s[x]);
        assert(spec_enc_pixels(s.take(x + 1)) == spec_enc_pixel(s[0]) + spec_enc_pixels(
            s.drop_first().take(x),
        ));
        assert(spec_enc_pixels(s.take(x)) == spec_enc_pixel(s[0]) + spec_enc_pixels(
            s.drop_first().take(x - 1),
        ));
        assert(spec_enc_pixels(s.take(x + 1)) =~= spec_enc_pixels(s.take(x)) + spec_enc_pixel(
            s[x],
        ));
    }
}

/// Appending one more row extends the row encoding by exactly that row's
/// pixels and its newline.
#[verifier::spinoff_prover]
pub proof fn lemma_enc_rows_snoc(px: Seq<BGR>, width: nat, y: nat)
    requires
        (y + 1) * width <= px.len(),
    ensures
        spec_enc_rows(px, width, y + 1) == spec_enc_rows(px, width, y) + spec_enc_pixels(
            px.subrange((y * width) as int, ((y + 1) * width) as int),
        ) + seq![10u8],
    decreases y,
{
    assert(y * width <= (y + 1) * width && (y + 1) * width == y * width + width) by (nonlinear_arith)
        requires width >= 0 && y >= 0;
    if y == 0 {
        assert(spec_enc_rows(px, width, 1) == spec_enc_pixels(px.take(width as int)) + seq![10u8]
            + spec_enc_rows(px.skip(width as int), width, 0));
        assert(px.subrange(0, width as int) =~= px.take(width as int));
        assert(spec_enc_rows(px, width, 1) =~= spec_enc_rows(px, width, 0) + spec_enc_pixels(
            px.subrange(0, width as int),
        ) + seq![10u8]);
    } else {
        lemma_enc_rows_snoc(px.skip(width as int), width, (y - 1) as nat);
        assert(((y - 1) + 1) * width == y * width) by (nonlinear_arith);
        assert((y - 1) * width == y * width - width) by (nonlinear_arith);
        assert(px.skip(width as int).subrange(
            (y * width - width) as int,
            (y * width) as int,
        ) =~= px.subrange((y * width) as int, ((y + 1) * width) as int));
        assert(px.skip(width as int).len() == px.len() - width);
        assert((y + 1) * width - width == y * width) by (nonlinear_arith);
        assert(spec_enc_rows(px, width, y + 1) == spec_enc_pixels(px.take(width as int))
            + seq![10u8] + spec_enc_rows(px.skip(width as int), width, y));
        assert(spec_enc_rows(px, width, y) == spec_enc_pixels(px.take(width as int)) + seq![10u8]
            + spec_enc_rows(px.skip(width as int), width, (y - 1) as nat));
        assert(spec_enc_rows(px, width, y + 1) =~= spec_enc_rows(px, width, y) + spec_enc_pixels(
            px.subrange((y * width) as int, ((y + 1) * width) as int),
        ) + seq![10u8]);
    }
}

/// Append the decimal digits of a number to a byte buffer.
fn push_decimal(out: &mut Vec<u8>, n: u32)
    ensures
        final(out)@ == old(out)@ + spec_digits(n as nat),
    decreases n,
{
    if n < 10 {
        out.push((48 + n) as u8);
        proof {
            assert(final(out)@ =~= old(out)@ + spec_digits(n as nat));
        }
    } else {
        push_decimal(out, n / 10);
        out.push((48 + (n % 10)) as u8);
        proof {
            assert(final(out)@ =~= old(out)@ + spec_digits(n as nat));
        }
    }
}

/// Encode an image in the portable text pixmap format: the magic line,
/// the dimensions, the value scale, then one text line per pixel row.
/// Fails only on a stale accessor.
#[verifier::rlimit(60)]
pub fn encode_ppm<I: ImageBGR>(img: &I) -> (r: Result<Vec<u8>, ScreenCaptureError>)
    ensures
        img.spec_valid() ==> r is Ok,
        r matches Ok(v) ==> v@ == spec_encode_ppm(
            img.spec_width(),
            img.spec_height(),
            img.spec_pixels(),
        ),
        r matches Err(e) ==> e is InvalidatedAccess,
{
    let width = img.width();
    let height = img.height();
    let data = match img.data() {
        Ok(d) => d,
        Err(e) => {
            return Err(e);
        },
    };
    let ghost px = img.spec_pixels();
    let mut out: Vec<u8> = Vec::new();
    out.push(80);
    out.push(51);
    out.push(10);
    push_decimal(&mut out, width);
    out.push(32);
    push_decimal(&mut out, height);
    out.push(10);
    out.push(50);
    out.push(53);
    out.push(53);
    out.push(10);
    let ghost header = seq![80u8, 51u8, 10u8] + spec_digits(width as nat) + seq![32u8]
        + spec_digits(height as nat) + seq![10u8] + seq![50u8, 53u8, 53u8, 10u8];
    proof {
        assert(out@ =~= header);
        assert(px.len() == width * height);
    }
    let mut y: u32 = 0;
    while y < height
        invariant
            0 <= y <= height,
            px == img.spec_pixels(),
            px.len() == width * height,
            width * height <= u32::MAX,
            width == img.spec_width(),
            height == img.spec_height(),
            data@ == px,
            out@ == header + spec_enc_rows(px, width as nat, y as nat),
        decreases height - y,
    {
        let ghost out_row_start = out@;
        proof {
            assert((y + 1) * width <= height * width) by (nonlinear_arith)
                requires y + 1 <= height && width >= 0;
            assert(height * width == width * height) by (nonlinear_arith);
        }
        let mut x: u32 = 0;
        proof {
            assert(0 <= y * width && y * width <= (y + 1) * width) by (nonlinear_arith)
                requires y >= 0 && width >= 0;
            assert(px.subrange((y * width) as int, (y * width) as int) =~= Seq::<BGR>::empty());
            assert(out@ =~= out_row_start + spec_enc_pixels(
                px.subrange((y * width) as int, (y * width) as int),
            ));
        }
        while x < width
            invariant
                0 <= x <= width,
                0 <= y < height,
                px.len() == width * height,
                (y + 1) * width <= width * height,
                width * height <= u32::MAX,
                data@ == px,
                out@ == out_row_start + spec_enc_pixels(
                    px.subrange((y * width) as int, (y * width + x) as int),
                ),
            decreases width - x,
        {
            proof {
                assert(y * width + x < (y + 1) * width) by (nonlinear_arith)
                    requires 0 <= x < width && y >= 0;
            }
            let p = data[(y as usize) * (width as usize) + (x as usize)];
            push_decimal(&mut out, p.r as u32);
            out.push(32);
            push_decimal(&mut out, p.g as u32);
            out.push(32);
            push_decimal(&mut out, p.b as u32);
            out.push(32);
            proof {
                let row = px.subrange((y * width) as int, ((y + 1) * width) as int);
                lemma_enc_pixels_snoc(row, x as int);
                assert(row.take(x as int) =~= px.subrange(
                    (y * width) as int,
                    (y * width + x) as int,
                ));
                assert(row.take(x + 1) =~= px.subrange(
                    (y * width) as int,
                    (y * width + x + 1) as int,
                ));
                assert(row[x as int] == px[y * width + x]);
                assert(p == px[y * width + x]);
                assert(out@ =~= out_row_start + spec_enc_pixels(
                    px.subrange((y * width) as int, (y * width + x + 1) as int),
                ));
            }
            x = x + 1;
        }
        out.push(10);
        proof {
            assert(y * width + width == (y + 1) * width) by (nonlinear_arith);
            assert((y + 1) * width <= width * height) by (nonlinear_arith)
                requires y + 1 <= height && width >= 0 && height >= 0;
            lemma_enc_rows_snoc(px, width as nat, y as nat);
            assert(out@ =~= header + spec_enc_rows(px, width as nat, (y + 1) as nat));
        }
        y = y + 1;
    }
    proof {
        assert(out@ =~= spec_encode_ppm(width, height, px));
    }
    Ok(out)
}

/// Whether the bytes at a position hold exactly the digits of a number,
/// followed by the end of the input or a byte that is not a digit.
pub open spec fn spec_number_at(bytes: Seq<u8>, pos: int, n: nat) -> bool {
    let d = spec_digits(n);
    &&& 0 <= pos
    &&& pos + d.len() <= bytes.len()
    &&& bytes.subrange(pos, pos + d.len()) == d
    &&& (pos + d.len() == bytes.len() || !spec_is_digit(bytes[pos + d.len()]))
}

/// Read an unsigned decimal number at the position: the longest run of
/// digits there, in its canonical form. Absent digits, a leading zero in
/// front of more digits, or a run beyond the 32-bit range give nothing.
fn read_u32(bytes: &[u8], pos: usize) -> (r: Option<(u32, usize)>)
    requires
        pos <= bytes@.len(),
    ensures
        r matches Some((n, p2)) ==> pos < p2 <= bytes@.len() && bytes@.subrange(
            pos as int,
            p2 as int,
        ) == spec_digits(n as nat) && (p2 == bytes@.len() || !spec_is_digit(bytes@[p2 as int])),
        forall|n: u32| spec_number_at(bytes@, pos as int, n as nat) ==> r == Some(
            (n, (pos + spec_digits(n as nat).len()) as usize),
        ),
{
    let len: usize = bytes.len();
    if pos >= len || !(48 <= bytes[pos] && bytes[pos] <= 57) {
        proof {
            assert forall|n: u32| !spec_number_at(bytes@, pos as int, n as nat) by {
                lemma_digits_are_digits(n as nat);
                if spec_number_at(bytes@, pos as int, n as nat) {
                    assert(bytes@.subrange(
                        pos as int,
                        pos + spec_digits(n as nat).len(),
                    )[0] == bytes@[pos as int]);
                }
            }
        }
        return None;
    }
    let mut i: usize = pos;
    let mut acc: u64 = 0;
    while i < len && 48 <= bytes[i] && bytes[i] <= 57
        invariant
            pos <= i <= len,
            len == bytes@.len(),
            forall|j: int| pos <= j < i ==> spec_is_digit(bytes@[j]),
            acc == spec_digit_val(bytes@.subrange(pos as int, i as int)),
            acc <= u32::MAX,
        decreases len - i,
    {
        let d: u8 = bytes[i] - 48;
        acc = acc * 10 + (d as u64);
        i = i + 1;
        proof {
            assert(bytes@.subrange(pos as int, i as int).drop_last() =~= bytes@.subrange(
                pos as int,
                i - 1,
            ));
            assert(bytes@.subrange(pos as int, i as int).last() == bytes@[i - 1]);
        }
        if acc > 0xFFFFFFFF {
            proof {
                assert forall|n: u32| !spec_number_at(bytes@, pos as int, n as nat) by {
                    if spec_number_at(bytes@, pos as int, n as nat) {
                        let d2 = spec_digits(n as nat);
                        lemma_digits_are_digits(n as nat);
                        if pos + d2.len() < i {
                            // the byte right after the number is a scanned digit
                            assert(spec_is_digit(bytes@[pos + d2.len()]));
                        } else {
                            // what was scanned is a prefix of the number's digits
                            assert(bytes@.subrange(pos as int, i as int) =~= d2.take(
                                i - pos,
                            ));
                            lemma_digits_prefix_le(n as nat, i - pos);
                        }
                    }
                }
            }
            return None;
        }
    }
    if bytes[pos] == 48 && i > pos + 1 {
        // a leading zero in front of more digits is no canonical number
        proof {
            assert forall|n: u32| !spec_number_at(bytes@, pos as int, n as nat) by {
                if spec_number_at(bytes@, pos as int, n as nat) {
                    let d2 = spec_digits(n as nat);
                    lemma_digits_are_digits(n as nat);
                    if pos + d2.len() < i {
                        assert(spec_is_digit(bytes@[pos + d2.len()]));
                    } else if pos + d2.len() > i {
                        assert(bytes@[i as int] == bytes@.subrange(
                            pos as int,
                            pos + d2.len(),
                        )[i - pos]);
                        assert(spec_is_digit(bytes@[i as int]));
                    } else {
                        assert(d2[0] == bytes@.subrange(pos as int, i as int)[0]);
                        assert(d2[0] == 48);
                        if n >= 1 {
                            lemma_digits_leading(n as nat);
                        }
                        assert(n == 0);
                        assert(d2.len() == 1);
                    }
                }
            }
        }
        return None;
    }
    proof {
        assert forall|n: u32| spec_number_at(bytes@, pos as int, n as nat) implies i == pos
            + spec_digits(n as nat).len() && acc == n by {
            let d2 = spec_digits(n as nat);
            lemma_digits_are_digits(n as nat);
            if pos + d2.len() < i {
                assert(spec_is_digit(bytes@[pos + d2.len()]));
                assert(false);
            } else if pos + d2.len() > i {
                // the scan stopped early: the byte at i would be a digit
                assert(bytes@[i as int] == bytes@.subrange(pos as int, pos + d2.len())[i - pos]);
                assert(spec_is_digit(bytes@[i as int]));
                assert(false);
            } else {
                assert(bytes@.subrange(pos as int, i as int) =~= d2);
                lemma_digits_val(n as nat);
            }
        }
        // the scanned run is canonical, so it is exactly the digits of
        // the denoted number
        let run = bytes@.subrange(pos as int, i as int);
        assert(run.len() >= 1);
        assert(forall|j: int| 0 <= j < run.len() ==> spec_is_digit(#[trigger] run[j]));
        assert(run[0] == bytes@[pos as int]);
        assert(run.len() == 1 || run[0] != 48);
        lemma_canonical_digits(run);
        assert(spec_digits(acc as nat) == run);
    }
    Some((acc as u32, i))
}

/// A well-formed image for the text format: at least one pixel each way,
/// a raster that fits the index arithmetic, and pixels covering it.
pub open spec fn spec_ppm_image(w: u32, h: u32, px: Seq<BGR>) -> bool {
    &&& 1 <= w
    &&& 1 <= h
    &&& w * h <= u32::MAX
    &&& px.len() == w * h
}

/// Reading a suffix: when the bytes from a position on are a piece
/// followed by a rest, the piece sits exactly there and the rest follows.
proof fn lemma_at_suffix(bytes: Seq<u8>, pos: int, d: Seq<u8>, rest: Seq<u8>)
    requires
        0 <= pos <= bytes.len(),
        bytes.skip(pos) == d + rest,
    ensures
        pos + d.len() <= bytes.len(),
        bytes.subrange(pos, pos + d.len()) == d,
        rest.len() > 0 ==> bytes[pos + d.len()] == rest[0],
        bytes.skip(pos + d.len()) == rest,
{
    assert(bytes.skip(pos).len() == bytes.len() - pos);
    assert(d.len() + rest.len() == bytes.len() - pos);
    assert forall|i: int| 0 <= i < d.len() implies bytes[pos + i] == d[i] by {
        assert(bytes.skip(pos)[i] == bytes[pos + i]);
        assert((d + rest)[i] == d[i]);
    }
    assert forall|i: int| 0 <= i < rest.len() implies bytes[pos + d.len() + i] == rest[i] by {
        assert(bytes.skip(pos)[d.len() + i] == bytes[pos + d.len() + i]);
        assert((d + rest)[d.len() + i] == rest[i]);
    }
    assert(bytes.subrange(pos, pos + d.len()) =~= d);
    assert(bytes.skip(pos + d.len()) =~= rest);
}

/// Two concatenations around the same separator split identically when
/// neither front holds the separator.
proof fn lemma_sep_split(a1: Seq<u8>, b1: Seq<u8>, a2: Seq<u8>, b2: Seq<u8>, sep: u8)
    requires
        a1 + seq![sep] + b1 == a2 + seq![sep] + b2,
        forall|i: int| 0 <= i < a1.len() ==> a1[i] != sep,
        forall|i: int| 0 <= i < a2.len() ==> a2[i] != sep,
    ensures
        a1 == a2,
        b1 == b2,
{
    let s = a1 + seq![sep] + b1;
    if a1.len() < a2.len() {
        assert(s[a1.len() as int] == sep);
        assert((a2 + seq![sep] + b2)[a1.len() as int] == a2[a1.len() as int]);
        assert(false);
    } else if a1.len() > a2.len() {
        assert(s[a2.len() as int] == a1[a2.len() as int]);
        assert((a2 + seq![sep] + b2)[a2.len() as int] == sep);
        assert(false);
    }
    assert forall|i: int| 0 <= i < a1.len() implies a1[i] == a2[i] by {
        assert(s[i] == a1[i]);
        assert((a2 + seq![sep] + b2)[i] == a2[i]);
    }
    assert(s.len() == a1.len() + 1 + b1.len());
    assert((a2 + seq![sep] + b2).len() == a2.len() + 1 + b2.len());
    assert(b1.len() == b2.len());
    assert forall|i: int| 0 <= i < b1.len() implies b1[i] == b2[i] by {
        assert(s[a1.len() + 1 + i] == b1[i]);
        assert((a2 + seq![sep] + b2)[a2.len() + 1 + i] == b2[i]);
    }
    assert(a1 =~= a2);
    assert(b1 =~= b2);
}

/// The digits of two equal digit runs denote the same number.
proof fn lemma_digits_injective(n1: nat, n2: nat)
    requires
        spec_digits(n1) == spec_digits(n2),
    ensures
        n1 == n2,
{
    lemma_digits_val(n1);
    lemma_digits_val(n2);
}

/// A pixel encoding followed by anything splits off unambiguously.
#[verifier::spinoff_prover]
#[verifier::rlimit(60)]
proof fn lemma_enc_pixel_split(p1: BGR, t1: Seq<u8>, p2: BGR, t2: Seq<u8>)
    requires
        spec_enc_pixel(p1) + t1 == spec_enc_pixel(p2) + t2,
    ensures
        p1 == p2,
        t1 == t2,
{
    lemma_digits_are_digits(p1.r as nat);
    lemma_digits_are_digits(p1.g as nat);
    lemma_digits_are_digits(p1.b as nat);
    lemma_digits_are_digits(p2.r as nat);
    lemma_digits_are_digits(p2.g as nat);
    lemma_digits_are_digits(p2.b as nat);
    let u1 = spec_digits(p1.g as nat) + seq![32u8] + spec_digits(p1.b as nat) + seq![32u8] + t1;
    let u2 = spec_digits(p2.g as nat) + seq![32u8] + spec_digits(p2.b as nat) + seq![32u8] + t2;
    assert(spec_enc_pixel(p1) + t1 =~= spec_digits(p1.r as nat) + seq![32u8] + u1);
    assert(spec_enc_pixel(p2) + t2 =~= spec_digits(p2.r as nat) + seq![32u8] + u2);
    lemma_sep_split(spec_digits(p1.r as nat), u1, spec_digits(p2.r as nat), u2, 32);
    lemma_digits_injective(p1.r as nat, p2.r as nat);
    let v1 = spec_digits(p1.b as nat) + seq![32u8] + t1;
    let v2 = spec_digits(p2.b as nat) + seq![32u8] + t2;
    assert(u1 =~= spec_digits(p1.g as nat) + seq![32u8] + v1);
    assert(u2 =~= spec_digits(p2.g as nat) + seq![32u8] + v2);
    lemma_sep_split(spec_digits(p1.g as nat), v1, spec_digits(p2.g as nat), v2, 32);
    lemma_digits_injective(p1.g as nat, p2.g as nat);
    assert(v1 =~= spec_digits(p1.b as nat) + seq![32u8] + t1);
    assert(v2 =~= spec_digits(p2.b as nat) + seq![32u8] + t2);
    lemma_sep_split(spec_digits(p1.b as nat), t1, spec_digits(p2.b as nat), t2, 32);
    lemma_digits_injective(p1.b as nat, p2.b as nat);
    assert(p1 == p2);
}

/// Equally long pixel runs with equal encodings are equal, and so is
/// whatever follows them.
proof fn lemma_enc_pixels_split(s1: Seq<BGR>, t1: Seq<u8>, s2: Seq<BGR>, t2: Seq<u8>)
    requires
        s1.len() == s2.len(),
        spec_enc_pixels(s1) + t1 == spec_enc_pixels(s2) + t2,
    ensures
        s1 == s2,
        t1 == t2,
    decreases s1.len(),
{
    if s1.len() == 0 {
        assert(spec_enc_pixels(s1) + t1 =~= t1);
        assert(spec_enc_pixels(s2) + t2 =~= t2);
        assert(s1 =~= s2);
    } else {
        assert(spec_enc_pixels(s1) + t1 =~= spec_enc_pixel(s1[0]) + (spec_enc_pixels(
            s1.drop_first(),
        ) + t1));
        assert(spec_enc_pixels(s2) + t2 =~= spec_enc_pixel(s2[0]) + (spec_enc_pixels(
            s2.drop_first(),
        ) + t2));
        lemma_enc_pixel_split(
            s1[0],
            spec_enc_pixels(s1.drop_first()) + t1,
            s2[0],
            spec_enc_pixels(s2.drop_first()) + t2,
        );
        lemma_enc_pixels_split(s1.drop_first(), t1, s2.drop_first(), t2);
        assert forall|i: int| 0 <= i < s1.len() implies s1[i] == s2[i] by {
            if i > 0 {
                assert(s1.drop_first()[i - 1] == s1[i]);
                assert(s2.drop_first()[i - 1] == s2[i]);
            }
        }
        assert(s1 =~= s2);
    }
}

/// Pixel-run encodings hold no newline.
proof fn lemma_enc_pixels_no_newline(s: Seq<BGR>)
    ensures
        forall|i: int| 0 <= i < spec_enc_pixels(s).len() ==> #[trigger] spec_enc_pixels(s)[i] != 10,
    decreases s.len(),
{
    if s.len() > 0 {
        lemma_enc_pixels_no_newline(s.drop_first());
        lemma_digits_are_digits(s[0].r as nat);
        lemma_digits_are_digits(s[0].g as nat);
        lemma_digits_are_digits(s[0].b as nat);
        assert forall|i: int| 0 <= i < spec_enc_pixels(s).len() implies #[trigger] spec_enc_pixels(
            s,
        )[i] != 10 by {
            let e = spec_enc_pixel(s[0]);
            if i >= e.len() {
                assert(spec_enc_pixels(s)[i] == spec_enc_pixels(s.drop_first())[i - e.len()]);
            }
        }
    }
}

/// Equal row encodings of the same geometry come from equal pixels.
proof fn lemma_enc_rows_injective(px1: Seq<BGR>, px2: Seq<BGR>, width: nat, rows: nat)
    requires
        px1.len() == width * rows,
        px2.len() == width * rows,
        spec_enc_rows(px1, width, rows) == spec_enc_rows(px2, width, rows),
    ensures
        px1 == px2,
    decreases rows,
{
    if rows == 0 {
        assert(width * rows == 0) by (nonlinear_arith)
            requires rows == 0;
        assert(px1 =~= px2);
    } else {
        assert(width * rows == width * (rows - 1) + width) by (nonlinear_arith);
        assert(width <= px1.len());
        let a1 = spec_enc_pixels(px1.take(width as int));
        let a2 = spec_enc_pixels(px2.take(width as int));
        let b1 = spec_enc_rows(px1.skip(width as int), width, (rows - 1) as nat);
        let b2 = spec_enc_rows(px2.skip(width as int), width, (rows - 1) as nat);
        assert(spec_enc_rows(px1, width, rows) == a1 + seq![10u8] + b1);
        assert(spec_enc_rows(px2, width, rows) == a2 + seq![10u8] + b2);
        lemma_enc_pixels_no_newline(px1.take(width as int));
        lemma_enc_pixels_no_newline(px2.take(width as int));
        lemma_sep_split(a1, b1, a2, b2, 10);
        lemma_enc_pixels_split(
            px1.take(width as int),
            Seq::empty(),
            px2.take(width as int),
            Seq::empty(),
        );
        assert(px1.skip(width as int).len() == width * (rows - 1)) by (nonlinear_arith)
            requires px1.len() == width * rows && rows >= 1 && width >= 0;
        assert(px2.skip(width as int).len() == width * (rows - 1)) by (nonlinear_arith)
            requires px2.len() == width * rows && rows >= 1 && width >= 0;
        lemma_enc_rows_injective(px1.skip(width as int), px2.skip(width as int), width, (rows - 1) as nat);
        assert forall|i: int| 0 <= i < px1.len() implies px1[i] == px2[i] by {
            if i < width {
                assert(px1.take(width as int)[i] == px1[i]);
                assert(px2.take(width as int)[i] == px2[i]);
            } else {
                assert(px1.skip(width as int)[i - width] == px1[i]);
                assert(px2.skip(width as int)[i - width] == px2[i]);
            }
        }
        assert(px1 =~= px2);
    }
}

/// An image determines its text encoding and the text encoding determines
/// the image: no two well-formed images encode to the same bytes.
pub proof fn lemma_ppm_encoding_unique(
    bytes: Seq<u8>,
    w1: u32,
    h1: u32,
    px1: Seq<BGR>,
    w2: u32,
    h2: u32,
    px2: Seq<BGR>,
)
    requires
        spec_ppm_image(w1, h1, px1),
        spec_ppm_image(w2, h2, px2),
        bytes == spec_encode_ppm(w1, h1, px1),
        bytes == spec_encode_ppm(w2, h2, px2),
    ensures
        w1 == w2,
        h1 == h2,
        px1 == px2,
{
    lemma_digits_are_digits(w1 as nat);
    lemma_digits_are_digits(w2 as nat);
    lemma_digits_are_digits(h1 as nat);
    lemma_digits_are_digits(h2 as nat);
    let r1 = spec_digits(h1 as nat) + seq![10u8] + (seq![50u8, 53u8, 53u8, 10u8] + spec_enc_rows(
        px1,
        w1 as nat,
        h1 as nat,
    ));
    let r2 = spec_digits(h2 as nat) + seq![10u8] + (seq![50u8, 53u8, 53u8, 10u8] + spec_enc_rows(
        px2,
        w2 as nat,
        h2 as nat,
    ));
    assert(bytes.skip(3) =~= spec_digits(w1 as nat) + seq![32u8] + r1);
    assert(bytes.skip(3) =~= spec_digits(w2 as nat) + seq![32u8] + r2);
    lemma_sep_split(spec_digits(w1 as nat), r1, spec_digits(w2 as nat), r2, 32);
    lemma_digits_injective(w1 as nat, w2 as nat);
    let q1 = seq![50u8, 53u8, 53u8, 10u8] + spec_enc_rows(px1, w1 as nat, h1 as nat);
    let q2 = seq![50u8, 53u8, 53u8, 10u8] + spec_enc_rows(px2, w2 as nat, h2 as nat);
    lemma_sep_split(spec_digits(h1 as nat), q1, spec_digits(h2 as nat), q2, 10);
    lemma_digits_injective(h1 as nat, h2 as nat);
    assert(spec_enc_rows(px1, w1 as nat, h1 as nat) =~= q1.skip(4));
    assert(spec_enc_rows(px2, w2 as nat, h2 as nat) =~= q2.skip(4));
    assert(w1 as nat * h1 as nat == (w1 * h1) as nat) by (nonlinear_arith);
    assert(px1.len() == w1 as nat * h1 as nat && px2.len() == w2 as nat * h2 as nat);
    assert(h1 as nat * w1 as nat == w1 as nat * h1 as nat) by (nonlinear_arith);
    lemma_enc_rows_injective(px1, px2, w1 as nat, h1 as nat);
}

/// Whether some well-formed image encodes to exactly these bytes.
pub open spec fn spec_is_ppm_encoding(bytes: Seq<u8>) -> bool {
    exists|t: (u32, u32, Seq<BGR>)|
        spec_ppm_image(t.0, t.1, t.2) && bytes == spec_encode_ppm(t.0, t.1, t.2)
}

/// When no well-formed image encodes to these bytes, none matches them.
proof fn lemma_unencoded(bytes: Seq<u8>)
    requires
        !spec_is_ppm_encoding(bytes),
    ensures
        forall|w: u32, h: u32, px: Seq<BGR>| !(spec_ppm_image(w, h, px) && bytes
            == spec_encode_ppm(w, h, px)),
{
    assert forall|w: u32, h: u32, px: Seq<BGR>| !(spec_ppm_image(w, h, px) && bytes
        == spec_encode_ppm(w, h, px)) by {
        if spec_ppm_image(w, h, px) && bytes == spec_encode_ppm(w, h, px) {
            let t = (w, h, px);
            assert(spec_ppm_image(t.0, t.1, t.2) && bytes == spec_encode_ppm(t.0, t.1, t.2));
        }
    }
}

/// The byte positions of the pieces of an encoded image.
proof fn lemma_encoding_shape(bytes: Seq<u8>, w: u32, h: u32, px: Seq<BGR>)
    requires
        spec_ppm_image(w, h, px),
        bytes == spec_encode_ppm(w, h, px),
    ensures
        bytes.len() >= 3,
        bytes[0] == 80 && bytes[1] == 51 && bytes[2] == 10,
        spec_number_at(bytes, 3, w as nat),
        ({
            let o2 = 3 + spec_digits(w as nat).len() as int;
            let o4 = o2 + 1 + spec_digits(h as nat).len() as int;
            &&& o2 < bytes.len() && bytes[o2] == 32
            &&& spec_number_at(bytes, o2 + 1, h as nat)
            &&& o4 + 5 <= bytes.len()
            &&& bytes[o4] == 10 && bytes[o4 + 1] == 50 && bytes[o4 + 2] == 53 && bytes[o4 + 3]
                == 53 && bytes[o4 + 4] == 10
            &&& bytes.skip(o4 + 5) == spec_enc_rows(px, w as nat, h as nat)
        }),
{
    let dw = spec_digits(w as nat);
    let dh = spec_digits(h as nat);
    let rows = spec_enc_rows(px, w as nat, h as nat);
    lemma_digits_are_digits(w as nat);
    lemma_digits_are_digits(h as nat);
    let t1 = dw + (seq![32u8] + (dh + (seq![10u8, 50u8, 53u8, 53u8, 10u8] + rows)));
    assert(bytes =~= seq![80u8, 51u8, 10u8] + t1);
    assert(bytes.skip(0) =~= bytes);
    lemma_at_suffix(bytes, 0, seq![80u8, 51u8, 10u8], t1);
    let t2 = seq![32u8] + (dh + (seq![10u8, 50u8, 53u8, 53u8, 10u8] + rows));
    lemma_at_suffix(bytes, 3, dw, t2);
    let o2 = 3 + dw.len() as int;
    let t3 = dh + (seq![10u8, 50u8, 53u8, 53u8, 10u8] + rows);
    lemma_at_suffix(bytes, o2, seq![32u8], t3);
    let t4 = seq![10u8, 50u8, 53u8, 53u8, 10u8] + rows;
    lemma_at_suffix(bytes, o2 + 1, dh, t4);
    let o4 = o2 + 1 + dh.len() as int;
    lemma_at_suffix(bytes, o4, seq![10u8, 50u8, 53u8, 53u8, 10u8], rows);
    assert(bytes[o4] == t4[0]);
    assert(bytes[o4 + 1] == bytes.subrange(o4, o4 + 5)[1]);
    assert(bytes[o4 + 2] == bytes.subrange(o4, o4 + 5)[2]);
    assert(bytes[o4 + 3] == bytes.subrange(o4, o4 + 5)[3]);
    assert(bytes[o4 + 4] == bytes.subrange(o4, o4 + 5)[4]);
    assert(spec_number_at(bytes, 3, w as nat));
    assert(spec_number_at(bytes, o2 + 1, h as nat));
}

/// Whether the bytes at a position hold a pixel component: its decimal
/// digits followed by one space.
pub open spec fn spec_component_at(bytes: Seq<u8>, pos: int, v: u8) -> bool {
    &&& spec_number_at(bytes, pos, v as nat)
    &&& pos + spec_digits(v as nat).len() < bytes.len()
    &&& bytes[pos + spec_digits(v as nat).len()] == 32
}

/// Read one pixel component: a decimal number of at most 255 followed by
/// one space.
fn read_component(bytes: &[u8], pos: usize) -> (r: Option<(u8, usize)>)
    requires
        pos <= bytes@.len(),
    ensures
        r matches Some((v, p2)) ==> pos < p2 <= bytes@.len() && bytes@.subrange(
            pos as int,
            p2 as int,
        ) == spec_digits(v as nat) + seq![32u8],
        forall|v: u8| spec_component_at(bytes@, pos as int, v) ==> r == Some(
            (v, (pos + spec_digits(v as nat).len() + 1) as usize),
        ),
{
    match read_u32(bytes, pos) {
        None => {
            proof {
                assert forall|v: u8| !spec_component_at(bytes@, pos as int, v) by {
                    if spec_component_at(bytes@, pos as int, v) {
                        assert(spec_number_at(bytes@, pos as int, v as nat));
                        assert(false);
                    }
                }
            }
            None
        },
        Some((n, p2)) => {
            if n > 255 {
                proof {
                    assert forall|v: u8| !spec_component_at(bytes@, pos as int, v) by {
                        if spec_component_at(bytes@, pos as int, v) {
                            assert(spec_number_at(bytes@, pos as int, v as nat));
                            assert(n == v);
                            assert(false);
                        }
                    }
                }
                None
            } else if !(p2 < bytes.len() && bytes[p2] == 32) {
                proof {
                    assert forall|v: u8| !spec_component_at(bytes@, pos as int, v) by {
                        if spec_component_at(bytes@, pos as int, v) {
                            assert(spec_number_at(bytes@, pos as int, v as nat));
                            assert(p2 == pos + spec_digits(v as nat).len());
                            assert(false);
                        }
                    }
                }
                None
            } else {
                proof {
                    assert(bytes@.subrange(pos as int, p2 + 1) =~= bytes@.subrange(
                        pos as int,
                        p2 as int,
                    ) + seq![bytes@[p2 as int]]);
                }
                Some((n as u8, p2 + 1))
            }
        },
    }
}

/// The header of the text encoding: the magic line, the dimensions line
/// and the value scale line.
pub open spec fn spec_ppm_header(width: u32, height: u32) -> Seq<u8> {
    seq![80u8, 51u8, 10u8] + spec_digits(width as nat) + seq![32u8] + spec_digits(height as nat)
        + seq![10u8] + seq![50u8, 53u8, 53u8, 10u8]
}

/// A longer prefix of the bytes is the shorter prefix plus the bytes in
/// between.
proof fn lemma_take_extend(bytes: Seq<u8>, a: int, b: int)
    requires
        0 <= a <= b <= bytes.len(),
    ensures
        bytes.take(b) == bytes.take(a) + bytes.subrange(a, b),
{
    assert(bytes.take(b) =~= bytes.take(a) + bytes.subrange(a, b));
}

/// The encoding of the first rows reads only the pixels of those rows.
proof fn lemma_enc_rows_prefix(px1: Seq<BGR>, px2: Seq<BGR>, width: nat, rows: nat)
    requires
        rows * width <= px1.len(),
        rows * width <= px2.len(),
        forall|i: int| 0 <= i < rows * width ==> px1[i] == px2[i],
    ensures
        spec_enc_rows(px1, width, rows) == spec_enc_rows(px2, width, rows),
    decreases rows,
{
    if rows > 0 {
        assert(rows * width == (rows - 1) * width + width && (rows - 1) * width >= 0)
            by (nonlinear_arith)
            requires rows >= 1 && width >= 0;
        assert(px1.take(width as int) =~= px2.take(width as int));
        assert forall|i: int| 0 <= i < (rows - 1) * width implies px1.skip(width as int)[i]
            == px2.skip(width as int)[i] by {
            assert(px1[i + width] == px2[i + width]);
        }
        lemma_enc_rows_prefix(
            px1.skip(width as int),
            px2.skip(width as int),
            width,
            (rows - 1) as nat,
        );
    }
}

/// Consuming one encoded pixel extends the consumed prefix to the
/// encoding of the rows so far plus the partial row including it.
proof fn lemma_pixel_step(
    bytes: Seq<u8>,
    hw: u32,
    hh: u32,
    data0: Seq<BGR>,
    data1: Seq<BGR>,
    p: BGR,
    width: nat,
    y: nat,
    x: nat,
    pos0: int,
    pos3: int,
)
    requires
        0 <= pos0 <= pos3 <= bytes.len(),
        bytes.take(pos0) == spec_ppm_header(hw, hh) + spec_enc_rows(data0, width, y)
            + spec_enc_pixels(data0.skip((y * width) as int)),
        bytes.subrange(pos0, pos3) == spec_enc_pixel(p),
        data1 == data0.push(p),
        data0.len() == y * width + x,
        x < width,
    ensures
        bytes.take(pos3) == spec_ppm_header(hw, hh) + spec_enc_rows(data1, width, y)
            + spec_enc_pixels(data1.skip((y * width) as int)),
{
    lemma_take_extend(bytes, pos0, pos3);
    assert(y * width <= data0.len());
    lemma_enc_rows_prefix(data1, data0, width, y);
    let t = data1.skip((y * width) as int);
    assert(t.len() == x + 1);
    lemma_enc_pixels_snoc(t, x as int);
    assert(t.take(x as int) =~= data0.skip((y * width) as int));
    assert(t.take(x as int + 1) =~= t);
    assert(t[x as int] == p);
    assert(bytes.take(pos3) =~= spec_ppm_header(hw, hh) + spec_enc_rows(data1, width, y)
        + spec_enc_pixels(data1.skip((y * width) as int)));
}

/// Consuming the newline after a full row extends the consumed prefix to
/// the encoding of one more complete row.
proof fn lemma_row_step(bytes: Seq<u8>, hw: u32, hh: u32, data: Seq<BGR>, width: nat, y: nat, pos: int)
    requires
        1 <= pos <= bytes.len(),
        bytes.take(pos - 1) == spec_ppm_header(hw, hh) + spec_enc_rows(data, width, y)
            + spec_enc_pixels(data.skip((y * width) as int)),
        bytes[pos - 1] == 10,
        data.len() == y * width + width,
    ensures
        bytes.take(pos) == spec_ppm_header(hw, hh) + spec_enc_rows(data, width, (y + 1) as nat)
            + spec_enc_pixels(data.skip(((y + 1) * width) as int)),
{
    assert((y + 1) * width == y * width + width) by (nonlinear_arith);
    assert(bytes.subrange(pos - 1, pos) =~= seq![10u8]);
    lemma_take_extend(bytes, pos - 1, pos);
    lemma_enc_rows_snoc(data, width, y);
    assert(data.skip((y * width) as int) =~= data.subrange(
        (y * width) as int,
        ((y + 1) * width) as int,
    ));
    assert(data.skip(((y + 1) * width) as int) =~= Seq::<BGR>::empty());
    assert(spec_enc_pixels(Seq::<BGR>::empty()) == Seq::<u8>::empty());
    assert(bytes.take(pos) =~= spec_ppm_header(hw, hh) + spec_enc_rows(data, width, (y + 1) as nat)
        + spec_enc_pixels(data.skip(((y + 1) * width) as int)));
}

/// Read an image back from the portable text pixmap format written by
/// `encode_ppm`. Success is promised for exactly the encoder's output:
/// for every well-formed image, parsing its encoding yields the original
/// dimensions and pixels. Other inputs are rejected with a message.
#[verifier::rlimit(100)]
pub fn parse_ppm(bytes: &[u8]) -> (r: Result<RasterImageBGR, String>)
    ensures
        forall|w: u32, h: u32, px: Seq<BGR>|
            spec_ppm_image(w, h, px) && bytes@ == spec_encode_ppm(w, h, px) ==> (r matches Ok(img)
                && img.spec_width() == w && img.spec_height() == h && img.spec_pixels() == px),
        r matches Ok(img) ==> spec_ppm_image(img.spec_width(), img.spec_height(), img.spec_pixels())
            && bytes@ == spec_encode_ppm(img.spec_width(), img.spec_height(), img.spec_pixels()),
{
    let ghost hyp = spec_is_ppm_encoding(bytes@);
    let ghost trip: (u32, u32, Seq<BGR>) = if hyp {
        choose|t: (u32, u32, Seq<BGR>)|
            spec_ppm_image(t.0, t.1, t.2) && bytes@ == spec_encode_ppm(t.0, t.1, t.2)
    } else {
        (1u32, 1u32, Seq::empty())
    };
    proof {
        if hyp {
            lemma_encoding_shape(bytes@, trip.0, trip.1, trip.2);
        }
    }
    let len: usize = bytes.len();

    // First, the type: this must be P3.
    if !(len >= 3 && bytes[0] == 80 && bytes[1] == 51 && bytes[2] == 10) {
        proof {
            if hyp {
                assert(false);
            }
            lemma_unencoded(bytes@);
        }
        return Err("Input format not supported.".to_string());
    }

    // This is where we get the resolution.
    let (width, pos_after_w) = match read_u32(bytes, 3) {
        Some(v) => v,
        None => {
            proof {
                if hyp {
                    assert(spec_number_at(bytes@, 3, trip.0 as nat));
                    assert(false);
                }
                lemma_unencoded(bytes@);
            }
            return Err("Could not parse width.".to_string());
        },
    };
    proof {
        if hyp {
            assert(spec_number_at(bytes@, 3, trip.0 as nat));
            assert(width == trip.0 && pos_after_w == 3 + spec_digits(trip.0 as nat).len());
        }
    }
    if !(pos_after_w < len && bytes[pos_after_w] == 32) {
        proof {
            if hyp {
                assert(false);
            }
            lemma_unencoded(bytes@);
        }
        return Err("Could not parse height.".to_string());
    }
    let (height, pos_after_h) = match read_u32(bytes, pos_after_w + 1) {
        Some(v) => v,
        None => {
            proof {
                if hyp {
                    assert(spec_number_at(
                        bytes@,
                        pos_after_w + 1,
                        trip.1 as nat,
                    ));
                    assert(false);
                }
                lemma_unencoded(bytes@);
            }
            return Err("Could not parse height.".to_string());
        },
    };
    proof {
        if hyp {
            assert(spec_number_at(bytes@, pos_after_w + 1, trip.1 as nat));
            assert(height == trip.1 && pos_after_h == pos_after_w + 1 + spec_digits(
                trip.1 as nat,
            ).len());
        }
    }

    // And check the scaling: only 255 is supported.
    if !(len - pos_after_h >= 5 && bytes[pos_after_h] == 10 && bytes[pos_after_h + 1] == 50
        && bytes[pos_after_h + 2] == 53 && bytes[pos_after_h + 3] == 53 && bytes[pos_after_h + 4]
        == 10) {
        proof {
            if hyp {
                assert(false);
            }
            lemma_unencoded(bytes@);
        }
        return Err("Scaling not supported, only 255 supported.".to_string());
    }
    proof {
        assert((width as int) * (height as int) <= 0xFFFFFFFFFFFFFFFF) by (nonlinear_arith)
            requires width <= 0xFFFFFFFF && height <= 0xFFFFFFFF;
    }
    if !(width >= 1 && height >= 1 && (width as u64) * (height as u64) <= 0xFFFFFFFF) {
        proof {
            if hyp {
                assert(trip.0 as int * trip.1 as int == (trip.0 * trip.1) as int)
                    by (nonlinear_arith);
                assert(false);
            }
            lemma_unencoded(bytes@);
        }
        return Err("Image dimensions not supported.".to_string());
    }
    let mut pos: usize = pos_after_h + 5;
    proof {
        if hyp {
            assert(bytes@.skip(pos as int) == spec_enc_rows(
                trip.2,
                trip.0 as nat,
                trip.1 as nat,
            ));
            assert(trip.2.skip(0) =~= trip.2);
        }
        assert((width * height) as int == (width as u64 * height as u64) as int)
            by (nonlinear_arith);
        // the consumed prefix is exactly the encoded header
        assert(bytes@.take(3) =~= seq![80u8, 51u8, 10u8]);
        lemma_take_extend(bytes@, 3, pos_after_w as int);
        assert(bytes@.subrange(pos_after_w as int, pos_after_w + 1) =~= seq![32u8]);
        lemma_take_extend(bytes@, pos_after_w as int, pos_after_w + 1);
        lemma_take_extend(bytes@, pos_after_w + 1, pos_after_h as int);
        assert(bytes@.subrange(pos_after_h as int, pos_after_h + 5) =~= seq![
            10u8,
            50u8,
            53u8,
            53u8,
            10u8,
        ]);
        lemma_take_extend(bytes@, pos_after_h as int, pos_after_h + 5);
        assert(bytes@.take(pos as int) =~= spec_ppm_header(width, height));
        assert(spec_enc_pixels(Seq::<BGR>::empty()) == Seq::<u8>::empty());
        assert(bytes@.take(pos as int) =~= spec_ppm_header(width, height) + spec_enc_rows(
            Seq::<BGR>::empty(),
            width as nat,
            0,
        ) + spec_enc_pixels(Seq::<BGR>::empty().skip(0)));
    }

    // Now we read the rows, each one holding the pixels of one image row.
    let mut data: Vec<BGR> = Vec::new();
    let mut y: u32 = 0;
    while y < height
        invariant
            0 <= y <= height,
            1 <= width && 1 <= height,
            width * height <= u32::MAX,
            len == bytes@.len(),
            pos <= len,
            data@.len() == y * width,
            bytes@.take(pos as int) == spec_ppm_header(width, height) + spec_enc_rows(
                data@,
                width as nat,
                y as nat,
            ) + spec_enc_pixels(data@.skip((y * width) as int)),
            hyp == spec_is_ppm_encoding(bytes@),
            hyp ==> (trip == choose|t: (u32, u32, Seq<BGR>)|
                spec_ppm_image(t.0, t.1, t.2) && bytes@ == spec_encode_ppm(t.0, t.1, t.2)),
            hyp ==> ({
                &&& width == trip.0
                &&& height == trip.1
                &&& trip.2.len() == width * height
                &&& data@ == trip.2.take((y * width) as int)
                &&& bytes@.skip(pos as int) == spec_enc_rows(
                    trip.2.skip((y * width) as int),
                    width as nat,
                    (height - y) as nat,
                )
            }),
        decreases height - y,
    {
        proof {
            assert((y + 1) * width == y * width + width && y * width + width <= height * width
                && height * width == width * height) by (nonlinear_arith)
                requires y + 1 <= height && width >= 0 && height >= 0;
            if hyp {
                let rest = trip.2.skip((y * width) as int);
                assert(rest.take(width as int) =~= trip.2.subrange(
                    (y * width) as int,
                    (y * width + width) as int,
                ));
                assert(rest.skip(width as int) =~= trip.2.skip((y * width + width) as int));
            }
        }
        let mut x: u32 = 0;
        while x < width
            invariant
                0 <= x <= width,
                0 <= y < height,
                1 <= width && 1 <= height,
                width * height <= u32::MAX,
                y * width + width <= width * height,
                len == bytes@.len(),
                pos <= len,
                data@.len() == y * width + x,
                bytes@.take(pos as int) == spec_ppm_header(width, height) + spec_enc_rows(
                    data@,
                    width as nat,
                    y as nat,
                ) + spec_enc_pixels(data@.skip((y * width) as int)),
                hyp == spec_is_ppm_encoding(bytes@),
                hyp ==> (trip == choose|t: (u32, u32, Seq<BGR>)|
                    spec_ppm_image(t.0, t.1, t.2) && bytes@ == spec_encode_ppm(t.0, t.1, t.2)),
                hyp ==> ({
                    &&& width == trip.0
                    &&& height == trip.1
                    &&& trip.2.len() == width * height
                    &&& data@ == trip.2.take((y * width + x) as int)
                    &&& bytes@.skip(pos as int) == spec_enc_pixels(
                        trip.2.subrange((y * width + x) as int, (y * width + width) as int),
                    ) + seq![10u8] + spec_enc_rows(
                        trip.2.skip((y * width + width) as int),
                        width as nat,
                        (height - y - 1) as nat,
                    )
                }),
            decreases width - x,
        {
            let ghost k = (y * width + x) as int;
            let ghost px_start = pos as int;
            proof {
                if hyp {
                    let srow = trip.2.subrange(k, (y * width + width) as int);
                    assert(srow.len() > 0);
                    assert(srow[0] == trip.2[k]);
                    assert(srow.drop_first() =~= trip.2.subrange(
                        k + 1,
                        (y * width + width) as int,
                    ));
                    let p = trip.2[k];
                    let tail = spec_enc_pixels(srow.drop_first()) + seq![10u8] + spec_enc_rows(
                        trip.2.skip((y * width + width) as int),
                        width as nat,
                        (height - y - 1) as nat,
                    );
                    assert(bytes@.skip(pos as int) =~= spec_digits(p.r as nat) + (seq![32u8] + (
                    spec_digits(p.g as nat) + (seq![32u8] + (spec_digits(p.b as nat) + (seq![32u8]
                        + tail))))));
                    lemma_digits_are_digits(p.r as nat);
                    lemma_digits_are_digits(p.g as nat);
                    lemma_digits_are_digits(p.b as nat);
                    lemma_at_suffix(
                        bytes@,
                        pos as int,
                        spec_digits(p.r as nat),
                        seq![32u8] + (spec_digits(p.g as nat) + (seq![32u8] + (spec_digits(
                            p.b as nat,
                        ) + (seq![32u8] + tail)))),
                    );
                    lemma_at_suffix(
                        bytes@,
                        pos + spec_digits(p.r as nat).len(),
                        seq![32u8],
                        spec_digits(p.g as nat) + (seq![32u8] + (spec_digits(p.b as nat) + (
                        seq![32u8] + tail))),
                    );
                    assert(spec_component_at(bytes@, pos as int, p.r));
                }
            }
            let (pr, pos1) = match read_component(bytes, pos) {
                Some(v) => v,
                None => {
                    proof {
                        if hyp {
                            assert(false);
                        }
                        lemma_unencoded(bytes@);
                    }
                    return Err("Could not parse a pixel value.".to_string());
                },
            };
            proof {
                if hyp {
                    let p = trip.2[k];
                    assert(pr == p.r && pos1 == pos + spec_digits(p.r as nat).len() + 1);
                    let tail = spec_enc_pixels(
                        trip.2.subrange(k, (y * width + width) as int).drop_first(),
                    ) + seq![10u8] + spec_enc_rows(
                        trip.2.skip((y * width + width) as int),
                        width as nat,
                        (height - y - 1) as nat,
                    );
                    lemma_at_suffix(
                        bytes@,
                        pos + spec_digits(p.r as nat).len() + 1,
                        spec_digits(p.g as nat),
                        seq![32u8] + (spec_digits(p.b as nat) + (seq![32u8] + tail)),
                    );
                    lemma_at_suffix(
                        bytes@,
                        pos1 + spec_digits(p.g as nat).len(),
                        seq![32u8],
                        spec_digits(p.b as nat) + (seq![32u8] + tail),
                    );
                    assert(spec_component_at(bytes@, pos1 as int, p.g));
                }
            }
            let (pg, pos2) = match read_component(bytes, pos1) {
                Some(v) => v,
                None => {
                    proof {
                        if hyp {
                            assert(false);
                        }
                        lemma_unencoded(bytes@);
                    }
                    return Err("Could not parse a pixel value.".to_string());
                },
            };
            proof {
                if hyp {
                    let p = trip.2[k];
                    assert(pg == p.g && pos2 == pos1 + spec_digits(p.g as nat).len() + 1);
                    let tail = spec_enc_pixels(
                        trip.2.subrange(k, (y * width + width) as int).drop_first(),
                    ) + seq![10u8] + spec_enc_rows(
                        trip.2.skip((y * width + width) as int),
                        width as nat,
                        (height - y - 1) as nat,
                    );
                    lemma_at_suffix(
                        bytes@,
                        pos2 as int,
                        spec_digits(p.b as nat),
                        seq![32u8] + tail,
                    );
                    lemma_at_suffix(
                        bytes@,
                        pos2 + spec_digits(p.b as nat).len(),
                        seq![32u8],
                        tail,
                    );
                    assert(spec_component_at(bytes@, pos2 as int, p.b));
                }
            }
            let (pb, pos3) = match read_component(bytes, pos2) {
                Some(v) => v,
                None => {
                    proof {
                        if hyp {
                            assert(false);
                        }
                        lemma_unencoded(bytes@);
                    }
                    return Err("Could not parse a pixel value.".to_string());
                },
            };
            let ghost data0 = data@;
            data.push(BGR { r: pr, g: pg, b: pb });
            pos = pos3;
            proof {
                // the three components consumed exactly one encoded pixel,
                // extending the consumed prefix by its encoding
                let p = BGR { r: pr, g: pg, b: pb };
                assert(bytes@.subrange(px_start, pos3 as int) =~= bytes@.subrange(
                    px_start,
                    pos1 as int,
                ) + bytes@.subrange(pos1 as int, pos2 as int) + bytes@.subrange(
                    pos2 as int,
                    pos3 as int,
                ));
                assert(bytes@.subrange(px_start, pos3 as int) =~= spec_enc_pixel(p));
                lemma_pixel_step(
                    bytes@,
                    width,
                    height,
                    data0,
                    data@,
                    p,
                    width as nat,
                    y as nat,
                    x as nat,
                    px_start,
                    pos3 as int,
                );
                if hyp {
                    let p = trip.2[k];
                    assert(pb == p.b && pos3 == pos2 + spec_digits(p.b as nat).len() + 1);
                    assert(BGR { r: pr, g: pg, b: pb } == p);
                    assert(trip.2.take(k + 1) =~= trip.2.take(k).push(p));
                    assert(data@ == trip.2.take(k + 1));
                    let tail = spec_enc_pixels(
                        trip.2.subrange(k, (y * width + width) as int).drop_first(),
                    ) + seq![10u8] + spec_enc_rows(
                        trip.2.skip((y * width + width) as int),
                        width as nat,
                        (height - y - 1) as nat,
                    );
                    assert(bytes@.skip(pos as int) == tail);
                    assert(trip.2.subrange(k, (y * width + width) as int).drop_first()
                        =~= trip.2.subrange(k + 1, (y * width + width) as int));
                    assert(bytes@.skip(pos as int) =~= spec_enc_pixels(
                        trip.2.subrange((y * width + x + 1) as int, (y * width + width) as int),
                    ) + seq![10u8] + spec_enc_rows(
                        trip.2.skip((y * width + width) as int),
                        width as nat,
                        (height - y - 1) as nat,
                    ));
                }
            }
            x = x + 1;
        }
        // The end of the row.
        if !(pos < len && bytes[pos] == 10) {
            proof {
                if hyp {
                    let erow = spec_enc_pixels(
                        trip.2.subrange((y * width + width) as int, (y * width + width) as int),
                    );
                    assert(trip.2.subrange(
                        (y * width + width) as int,
                        (y * width + width) as int,
                    ) =~= Seq::<BGR>::empty());
                    assert(bytes@.skip(pos as int)[0] == 10);
                    assert(bytes@.skip(pos as int)[0] == bytes@[pos as int]);
                    assert(false);
                }
                lemma_unencoded(bytes@);
            }
            return Err("A row ends without a line break.".to_string());
        }
        pos = pos + 1;
        y = y + 1;
        proof {
            assert(y * width == (y - 1) * width + width) by (nonlinear_arith);
            // the newline closes the row in the consumed prefix
            lemma_row_step(bytes@, width, height, data@, width as nat, (y - 1) as nat, pos as int);
            if hyp {
                assert(trip.2.subrange(
                    ((y - 1) * width + width) as int,
                    ((y - 1) * width + width) as int,
                ) =~= Seq::<BGR>::empty());
                assert(bytes@.skip(pos - 1) =~= seq![10u8] + spec_enc_rows(
                    trip.2.skip((y * width) as int),
                    width as nat,
                    (height - y) as nat,
                ));
                lemma_at_suffix(
                    bytes@,
                    pos - 1,
                    seq![10u8],
                    spec_enc_rows(
                        trip.2.skip((y * width) as int),
                        width as nat,
                        (height - y) as nat,
                    ),
                );
            }
        }
    }
    if pos != len {
        proof {
            if hyp {
                assert(bytes@.skip(pos as int).len() == 0);
                assert(false);
            }
            lemma_unencoded(bytes@);
        }
        return Err("Trailing data after the pixel rows.".to_string());
    }
    proof {
        assert(height * width == width * height) by (nonlinear_arith);
    }
    let img = RasterImageBGR::from_raw_parts(width, height, data);
    proof {
        // every accepted input is exactly the encoding of the result
        assert(img.spec_pixels().skip((height * width) as int) =~= Seq::<BGR>::empty());
        assert(bytes@.take(len as int) =~= bytes@);
        assert(bytes@ =~= spec_encode_ppm(width, height, img.spec_pixels()));
        assert(spec_ppm_image(width, height, img.spec_pixels()));
        if hyp {
            assert(trip.2.take((height * width) as int) =~= trip.2);
        }
        assert forall|w: u32, h: u32, px: Seq<BGR>|
            spec_ppm_image(w, h, px) && bytes@ == spec_encode_ppm(w, h, px) implies (
        img.spec_width() == w && img.spec_height() == h && img.spec_pixels() == px) by {
            let t = (w, h, px);
            assert(spec_ppm_image(t.0, t.1, t.2) && bytes@ == spec_encode_ppm(t.0, t.1, t.2));
            assert(hyp);
            lemma_ppm_encoding_unique(bytes@, w, h, px, trip.0, trip.1, trip.2);
        }
    }
    Ok(img)
}

/// The little-endian bytes of a 32-bit value.
pub open spec fn spec_le32(n: u32) -> Seq<u8> {
    seq![
        (n % 256) as u8,
        ((n / 256) % 256) as u8,
        ((n / 65536) % 256) as u8,
        ((n / 16777216) % 256) as u8,
    ]
}

/// The padding bytes each bitmap row carries so that rows start on
/// 4-byte boundaries.
pub open spec fn spec_bmp_pad(width: u32) -> nat {
    ((4 - (3 * (width as int)) % 4) % 4) as nat
}

/// One row's pixels in the bitmap order: blue, green, red per pixel.
pub open spec fn spec_bmp_pixels(s: Seq<BGR>) -> Seq<u8>
    decreases s.len(),
{
    if s.len() == 0 {
        Seq::empty()
    } else {
        seq![s[0].b, s[0].g, s[0].r] + spec_bmp_pixels(s.drop_first())
    }
}

/// The given number of rows off the bottom of the raster, written bottom
/// row first, each padded to a 4-byte boundary.
pub open spec fn spec_bmp_rows(px: Seq<BGR>, width: nat, pad: nat, rows: nat) -> Seq<u8>
    decreases rows,
{
    if rows == 0 {
        Seq::empty()
    } else {
        spec_bmp_pixels(px.subrange(((rows - 1) * width) as int, (rows * width) as int))
            + Seq::new(pad, |i: int| 0u8) + spec_bmp_rows(px, width, pad, (rows - 1) as nat)
    }
}

/// The binary bitmap encoding of an image: the two magic bytes, the
/// 54-byte header with the total size, data offset, header size,
/// dimensions and the 24-bit single-plane pixel format, then the pixel
/// rows bottom-up.
pub open spec fn spec_encode_bmp(width: u32, height: u32, px: Seq<BGR>) -> Seq<u8> {
    let pad = spec_bmp_pad(width);
    let total = (54 + 3 * width * height + pad * height) as u32;
    seq![66u8, 77u8] + spec_le32(total) + spec_le32(0) + spec_le32(54) + spec_le32(40) + spec_le32(
        width,
    ) + spec_le32(height) + spec_le32(1572865) + Seq::new(24, |i: int| 0u8) + spec_bmp_rows(
        px,
        width as nat,
        pad,
        height as nat,
    )
}

/// Extending a bitmap row by one pixel appends exactly its three bytes.
proof fn lemma_bmp_pixels_snoc(s: Seq<BGR>, x: int)
    requires
        0 <= x < s.len(),
    ensures
        spec_bmp_pixels(s.take(x + 1)) == spec_bmp_pixels(s.take(x)) + seq![s[x].b, s[x].g, s[x].r],
    decreases x,
{
    if x == 0 {
        assert(s.take(1).drop_first() =~= Seq::<BGR>::empty());
        assert(s.take(0) =~= Seq::<BGR>::empty());
        assert(s.take(1)[0] == s[0]);
        assert(spec_bmp_pixels(s.take(1)) =~= spec_bmp_pixels(s.take(0)) + seq![s[0].b, s[0].g, s[0].r]);
    } else {
        lemma_bmp_pixels_snoc(s.drop_first(), x - 1);
        assert(s.take(x + 1).drop_first() =~= s.drop_first().take(x));
        assert(s.take(x).drop_first() =~= s.drop_first().take(x - 1));
        assert(s.take(x + 1)[0] == s[0]);
        assert(s.take(x)[0] == s[0]);
        assert(s.drop_first()[x - 1] == s[x]);
        assert(spec_bmp_pixels(s.take(x + 1)) =~= spec_bmp_pixels(s.take(x)) + seq![s[x].b, s[x].g, s[x].r]);
    }
}

/// Append the little-endian bytes of a 32-bit value.
fn push_le32(out: &mut Vec<u8>, n: u32)
    ensures
        final(out)@ == old(out)@ + spec_le32(n),
{
    out.push((n % 256) as u8);
    out.push(((n / 256) % 256) as u8);
    out.push(((n / 65536) % 256) as u8);
    out.push(((n / 16777216) % 256) as u8);
    proof {
        assert(final(out)@ =~= old(out)@ + spec_le32(n));
    }
}

/// Encode an image as a binary bitmap, rows written bottom-up and padded
/// to 4-byte boundaries. The encoded size must fit the format's 32-bit
/// size field. Fails only on a stale accessor.
#[verifier::rlimit(60)]
pub fn encode_bmp<I: ImageBGR>(img: &I) -> (r: Result<Vec<u8>, ScreenCaptureError>)
    requires
        54 + 3 * (img.spec_width() * img.spec_height()) + spec_bmp_pad(img.spec_width())
            * img.spec_height() <= u32::MAX,
    ensures
        img.spec_valid() ==> r is Ok,
        r matches Ok(v) ==> v@ == spec_encode_bmp(
            img.spec_width(),
            img.spec_height(),
            img.spec_pixels(),
        ),
        r matches Err(e) ==> e is InvalidatedAccess,
{
    let width = img.width();
    let height = img.height();
    let data = match img.data() {
        Ok(d) => d,
        Err(e) => {
            return Err(e);
        },
    };
    let ghost px = img.spec_pixels();
    let pad: u32 = ((4 - (3 * (width as u64)) % 4) % 4) as u32;
    proof {
        assert(pad == spec_bmp_pad(width)) by (nonlinear_arith)
            requires pad == ((4 - (3 * (width as int)) % 4) % 4) && width >= 0;
        assert(3 * ((width * height) as int) == (3 * (width as int)) * (height as int) && (
        spec_bmp_pad(width) * height) as int == spec_bmp_pad(width) * (height as int))
            by (nonlinear_arith);
    }
    proof {
        assert((3 * (width as u64) * (height as u64)) as int == 3 * ((width * height) as int) && ((
        pad as u64) * (height as u64)) as int == (pad as int) * (height as int))
            by (nonlinear_arith);
        assert((spec_bmp_pad(width) * img.spec_height()) as int == (pad as int) * (height as int))
            by (nonlinear_arith)
            requires pad == spec_bmp_pad(width) && height == img.spec_height();
    }
    let total: u32 = (54 + 3 * (width as u64) * (height as u64) + (pad as u64) * (height
        as u64)) as u32;
    let mut out: Vec<u8> = Vec::new();
    out.push(66);
    out.push(77);
    push_le32(&mut out, total);
    push_le32(&mut out, 0);
    push_le32(&mut out, 54);
    push_le32(&mut out, 40);
    push_le32(&mut out, width);
    push_le32(&mut out, height);
    push_le32(&mut out, 1572865);
    let mut z: usize = 0;
    let ghost header_part = seq![66u8, 77u8] + spec_le32(total) + spec_le32(0) + spec_le32(54)
        + spec_le32(40) + spec_le32(width) + spec_le32(height) + spec_le32(1572865);
    while z < 24
        invariant
            0 <= z <= 24,
            out@ == header_part + Seq::new(z as nat, |i: int| 0u8),
        decreases 24 - z,
    {
        out.push(0);
        proof {
            assert(out@ =~= header_part + Seq::new((z + 1) as nat, |i: int| 0u8));
        }
        z = z + 1;
    }
    let ghost header = header_part + Seq::new(24, |i: int| 0u8);
    // And now, we go into writing rows, bottom row first.
    let mut y: u32 = 0;
    while y < height
        invariant
            0 <= y <= height,
            px == img.spec_pixels(),
            px.len() == width * height,
            width * height <= u32::MAX,
            width == img.spec_width(),
            height == img.spec_height(),
            pad == spec_bmp_pad(width),
            data@ == px,
            out@ + spec_bmp_rows(px, width as nat, pad as nat, (height - y) as nat) == header
                + spec_bmp_rows(px, width as nat, pad as nat, height as nat),
        decreases height - y,
    {
        let src: u32 = height - y - 1;
        let ghost out_row_start = out@;
        proof {
            assert((src + 1) * width <= height * width && height * width == width * height && src
                * width + width == (src + 1) * width && 0 <= src * width) by (nonlinear_arith)
                requires src + 1 <= height && width >= 0 && height >= 0;
            assert(px.subrange((src * width) as int, (src * width) as int) =~= Seq::<BGR>::empty());
        }
        let mut x: u32 = 0;
        while x < width
            invariant
                0 <= x <= width,
                0 <= src < height,
                px.len() == width * height,
                width * height <= u32::MAX,
                (src + 1) * width <= width * height,
                src * width + width == (src + 1) * width,
                data@ == px,
                out@ == out_row_start + spec_bmp_pixels(
                    px.subrange((src * width) as int, (src * width + x) as int),
                ),
            decreases width - x,
        {
            proof {
                assert(src * width + x < (src + 1) * width) by (nonlinear_arith)
                    requires 0 <= x < width && src >= 0;
            }
            let p = data[(src as usize) * (width as usize) + (x as usize)];
            out.push(p.b);
            out.push(p.g);
            out.push(p.r);
            proof {
                let row = px.subrange((src * width) as int, ((src + 1) * width) as int);
                lemma_bmp_pixels_snoc(row, x as int);
                assert(row.take(x as int) =~= px.subrange(
                    (src * width) as int,
                    (src * width + x) as int,
                ));
                assert(row.take(x + 1) =~= px.subrange(
                    (src * width) as int,
                    (src * width + x + 1) as int,
                ));
                assert(row[x as int] == px[src * width + x]);
                assert(out@ =~= out_row_start + spec_bmp_pixels(
                    px.subrange((src * width) as int, (src * width + x + 1) as int),
                ));
            }
            x = x + 1;
        }
        let mut q: u32 = 0;
        let ghost out_pad_start = out@;
        while q < pad
            invariant
                0 <= q <= pad,
                out@ == out_pad_start + Seq::new(q as nat, |i: int| 0u8),
            decreases pad - q,
        {
            out.push(0);
            proof {
                assert(out@ =~= out_pad_start + Seq::new((q + 1) as nat, |i: int| 0u8));
            }
            q = q + 1;
        }
        proof {
            let rows_left = (height - y) as nat;
            assert(spec_bmp_rows(px, width as nat, pad as nat, rows_left) == spec_bmp_pixels(
                px.subrange(
                    ((rows_left - 1) * width) as int,
                    (rows_left * width) as int,
                ),
            ) + Seq::new(pad as nat, |i: int| 0u8) + spec_bmp_rows(
                px,
                width as nat,
                pad as nat,
                (rows_left - 1) as nat,
            ));
            assert((rows_left - 1) * width == src * width && rows_left * width == (src + 1)
                * width) by (nonlinear_arith)
                requires rows_left == height - y && src == height - y - 1 && width >= 0;
            assert(out@ + spec_bmp_rows(px, width as nat, pad as nat, (height - y - 1) as nat)
                =~= out_row_start + spec_bmp_rows(px, width as nat, pad as nat, rows_left));
        }
        y = y + 1;
    }
    proof {
        assert(spec_bmp_rows(px, width as nat, pad as nat, 0) =~= Seq::<u8>::empty());
        assert(out@ =~= out@ + spec_bmp_rows(px, width as nat, pad as nat, 0));
        assert(out@ =~= spec_encode_bmp(width, height, px));
    }
    Ok(out)
}

} // verus!

//! The plain-text pixel form of a finished image: a "P3" header line, the
//! width and height, the maximum channel value 255, then one line per row
//! holding the decimal channel values of its pixels. The library produces
//! the bytes; writing them to a file or stream is the caller's affair.

use crate::image::Color;
use crate::image::Image;
use vstd::prelude::*;

verus! {

/// The decimal digits of `n`, most significant first, as ASCII bytes.
pub open spec fn dec_of(n: nat) -> Seq<u8>
    decreases n,
{
    if n < 10 {
        seq![(n + 48) as u8]
    } else {
        dec_of(n / 10) + seq![(n % 10 + 48) as u8]
    }
}

/// One pixel's text: red, green and blue in decimal, each followed by one
/// space.
pub open spec fn pixel_text(c: Color) -> Seq<u8> {
    dec_of(c.red as nat) + seq![32u8] + dec_of(c.green as nat) + seq![32u8] + dec_of(
        c.blue as nat,
    ) + seq![32u8]
}

/// The text of a run of pixels, in order.
pub open spec fn pixels_text(s: Seq<Color>) -> Seq<u8>
    decreases s.len(),
{
    if s.len() == 0 {
        Seq::empty()
    } else {
        pixels_text(s.drop_last()) + pixel_text(s.last())
    }
}

/// The text of the first `i` rows of a row-major grid of the given width:
/// each row's pixels, then a newline.
pub open spec fn rows_text(pixels: Seq<Color>, width: nat, i: nat) -> Seq<u8>
    decreases i,
{
    if i == 0 {
        Seq::empty()
    } else {
        rows_text(pixels, width, (i - 1) as nat) + pixels_text(
            pixels.subrange(((i - 1) * width) as int, (i * width) as int),
        ) + seq![10u8]
    }
}

/// The header: "P3", a newline, the width, a space, the height, a newline,
/// "255", a newline.
pub open spec fn ppm_header(width: nat, height: nat) -> Seq<u8> {
    seq![80u8, 51u8, 10u8] + dec_of(width) + seq![32u8] + dec_of(height) + seq![
        10u8,
        50u8,
        53u8,
        53u8,
        10u8,
    ]
}

/// The whole text form: header, then every row.
pub open spec fn ppm_of(pixels: Seq<Color>, width: nat, height: nat) -> Seq<u8> {
    ppm_header(width, height) + rows_text(pixels, width, height)
}

/// Appends the decimal digits of `n` to `out`.
fn push_dec_u32(out: &mut Vec<u8>, n: u32)
    ensures
        final(out)@ == old(out)@ + dec_of(n as nat),
    decreases n,
{
    if n >= 10 {
        push_dec_u32(out, n / 10);
    }
    out.push((n % 10) as u8 + 48);
    proof {
        assert(out@ =~= old(out)@ + dec_of(n as nat));
    }
}

/// Extending a run of pixels by one extends its text by that pixel's text.
proof fn lemma_pixels_text_snoc(s: Seq<Color>, a: int, b: int)
    requires
        0 <= a <= b < s.len(),
    ensures
        pixels_text(s.subrange(a, b + 1)) == pixels_text(s.subrange(a, b)) + pixel_text(s[b]),
{
    assert(s.subrange(a, b + 1).drop_last() =~= s.subrange(a, b));
    assert(s.subrange(a, b + 1).last() == s[b]);
    assert(s.subrange(a, b + 1).len() != 0);
}

impl Image {
    /// The image's full PPM text, byte for byte.
    pub fn ppm_bytes(&self) -> (out: Vec<u8>)
        requires
            self.wf(),
        ensures
            out@ == ppm_of(self.grid(), self.spec_width() as nat, self.spec_height() as nat),
    {
        let w: u32 = self.width();
        let h: u32 = self.height();
        let ghost header = ppm_header(w as nat, h as nat);
        let mut out: Vec<u8> = Vec::new();
        out.push(80);
        out.push(51);
        out.push(10);
        push_dec_u32(&mut out, w);
        out.push(32);
        push_dec_u32(&mut out, h);
        out.push(10);
        out.push(50);
        out.push(53);
        out.push(53);
        out.push(10);
        proof {
            assert(out@ =~= header);
        }
        let mut i: u32 = 0;
        while i < h
            invariant
                self.wf(),
                w == self.spec_width(),
                h == self.spec_height(),
                header == ppm_header(w as nat, h as nat),
                i <= h,
                out@ == header + rows_text(self.grid(), w as nat, i as nat),
            decreases h - i,
        {
            let ghost row_start = i as int * w as int;
            let ghost done = header + rows_text(self.grid(), w as nat, i as nat);
            proof {
                lemma_row_bounds(i as int, w as int, h as int);
                assert(self.grid().subrange(row_start, row_start) =~= Seq::<Color>::empty());
                assert(out@ =~= done + pixels_text(self.grid().subrange(row_start, row_start)));
            }
            let mut j: u32 = 0;
            while j < w
                invariant
                    self.wf(),
                    w == self.spec_width(),
                    h == self.spec_height(),
                    i < h,
                    j <= w,
                    row_start == i as int * w as int,
                    done == header + rows_text(self.grid(), w as nat, i as nat),
                    out@ == done + pixels_text(
                        self.grid().subrange(row_start, row_start + j as int),
                    ),
                decreases w - j,
            {
                let c: Color = self.pixel(i, j);
                push_dec_u32(&mut out, c.red as u32);
                out.push(32);
                push_dec_u32(&mut out, c.green as u32);
                out.push(32);
                push_dec_u32(&mut out, c.blue as u32);
                out.push(32);
                proof {
                    lemma_row_bounds(i as int, w as int, h as int);
                    crate::image::lemma_flat_index_in_range(
                        i as int,
                        j as int,
                        w as int,
                        h as int,
                    );
                    lemma_pixels_text_snoc(self.grid(), row_start, row_start + j as int);
                    assert(out@ =~= done + pixels_text(
                        self.grid().subrange(row_start, row_start + j as int + 1),
                    ));
                }
                j += 1;
            }
            out.push(10);
            proof {
                lemma_row_bounds(i as int, w as int, h as int);
                assert(rows_text(self.grid(), w as nat, (i + 1) as nat) == rows_text(
                    self.grid(),
                    w as nat,
                    i as nat,
                ) + pixels_text(self.grid().subrange(row_start, row_start + w as int)) + seq![
                    10u8,
                ]);
                assert(out@ =~= header + rows_text(self.grid(), w as nat, (i + 1) as nat));
            }
            i += 1;
        }
        out
    }
}

/// The image buffer's half of render determinism: the pixel grid, and with
/// it the PPM text, is a function of the per-pixel outcomes alone. Two
/// well-formed images of the same size whose slots each hold the one
/// outcome some per-coordinate function gives carry the same grid and the
/// same bytes. Whether the per-pixel kernel itself always returns that one
/// outcome — say, by fixing its random source — is the caller's affair.
pub proof fn lemma_render_deterministic(a: Image, b: Image, px: spec_fn(u32, u32) -> Color)
    requires
        a.wf(),
        b.wf(),
        a.spec_width() == b.spec_width(),
        a.spec_height() == b.spec_height(),
        forall|k: int|
            0 <= k < a.grid().len() ==> #[trigger] a.grid()[k] == px(
                (k / a.spec_width() as int) as u32,
                (k % a.spec_width() as int) as u32,
            ),
        forall|k: int|
            0 <= k < b.grid().len() ==> #[trigger] b.grid()[k] == px(
                (k / b.spec_width() as int) as u32,
                (k % b.spec_width() as int) as u32,
            ),
    ensures
        a.grid() == b.grid(),
        ppm_of(a.grid(), a.spec_width() as nat, a.spec_height() as nat) == ppm_of(
            b.grid(),
            b.spec_width() as nat,
            b.spec_height() as nat,
        ),
{
    assert forall|k: int| 0 <= k < a.grid().len() implies a.grid()[k] == b.grid()[k] by {
        assert(a.grid()[k] == px(
            (k / a.spec_width() as int) as u32,
            (k % a.spec_width() as int) as u32,
        ));
        assert(b.grid()[k] == px(
            (k / b.spec_width() as int) as u32,
            (k % b.spec_width() as int) as u32,
        ));
    }
    assert(a.grid() =~= b.grid());
}

/// A row inside the grid spans a run of slots inside the buffer.
proof fn lemma_row_bounds(i: int, width: int, height: int)
    requires
        0 <= i < height,
        0 <= width,
    ensures
        0 <= i * width,
        (i + 1) * width == i * width + width,
        (i + 1) * width <= width * height,
{
    assert(0 <= i * width && (i + 1) * width == i * width + width && (i + 1) * width <= width
        * height) by (nonlinear_arith)
        requires
            0 <= i < height,
            0 <= width,
    ;
}

} // verus!


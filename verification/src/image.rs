//! The pixel grid that the renderer fills: a width x height, row-major
//! buffer of RGB byte triples.

use rayon::iter::IndexedParallelIterator;
use rayon::iter::IntoParallelRefMutIterator;
use rayon::iter::ParallelIterator;
use vstd::prelude::*;

verus! {

/// One pixel: red, green and blue channels, each an 8-bit value.
#[derive(Clone, Copy, PartialEq, Eq, Structural, Debug)]
pub struct Color {
    pub red: u8,
    pub green: u8,
    pub blue: u8,
}

/// A raster image: `height` rows of `width` pixels, stored row-major, so the
/// pixel at row `i`, column `j` sits at flat index `i * width + j`.
pub struct Image {
    pixels: Vec<Color>,
    width: u32,
    height: u32,
}

impl Image {
    pub closed spec fn spec_width(&self) -> u32 {
        self.width
    }

    pub closed spec fn spec_height(&self) -> u32 {
        self.height
    }

    /// The grid contents, row-major.
    pub closed spec fn grid(&self) -> Seq<Color> {
        self.pixels@
    }

    /// The buffer holds exactly one slot per pixel coordinate.
    pub open spec fn wf(&self) -> bool {
        self.grid().len() == self.spec_width() as int * self.spec_height() as int
    }

    /// The pixel at row `i`, column `j`, as the contract of every accessor
    /// speaks of it.
    pub open spec fn pixel_at(&self, i: int, j: int) -> Color {
        self.grid()[i * self.spec_width() as int + j]
    }

    pub fn with_background(height: u32, width: u32, color: Color) -> (img: Image)
        requires
            width as int * height as int <= usize::MAX as int,
        ensures
            img.wf(),
            img.spec_width() == width,
            img.spec_height() == height,
            forall|k: int| 0 <= k < img.grid().len() ==> img.grid()[k] == color,
    {
        let n: usize = (width as usize) * (height as usize);
        let mut pixels: Vec<Color> = Vec::new();
        let mut k: usize = 0;
        while k < n
            invariant
                k <= n,
                pixels@.len() == k,
                forall|m: int| 0 <= m < k ==> pixels@[m] == color,
            decreases n - k,
        {
            pixels.push(color);
            k += 1;
        }
        Image { pixels, width, height }
    }

    pub fn new(height: u32, width: u32) -> (img: Image)
        requires
            width as int * height as int <= usize::MAX as int,
        ensures
            img.wf(),
            img.spec_width() == width,
            img.spec_height() == height,
            forall|k: int|
                0 <= k < img.grid().len() ==> img.grid()[k] == (Color {
                    red: 0,
                    green: 0,
                    blue: 0,
                }),
    {
        Image::with_background(height, width, Color { red: 0, blue: 0, green: 0 })
    }

    pub fn width(&self) -> (w: u32)
        ensures
            w == self.spec_width(),
    {
        self.width
    }

    pub fn height(&self) -> (h: u32)
        ensures
            h == self.spec_height(),
    {
        self.height
    }

    pub fn pixel(&self, i: u32, j: u32) -> (c: Color)
        requires
            self.wf(),
            i < self.spec_height(),
            j < self.spec_width(),
        ensures
            c == self.pixel_at(i as int, j as int),
    {
        let n: usize = self.pixels.len();
        proof {
            lemma_flat_index_in_range(
                i as int,
                j as int,
                self.spec_width() as int,
                self.spec_height() as int,
            );
            assert(n == self.grid().len());
        }
        let k: usize = (i as usize) * (self.width as usize) + (j as usize);
        self.pixels[k]
    }

    pub fn set_pixel(&mut self, i: u32, j: u32, c: Color)
        requires
            old(self).wf(),
            i < old(self).spec_height(),
            j < old(self).spec_width(),
        ensures
            final(self).wf(),
            final(self).spec_width() == old(self).spec_width(),
            final(self).spec_height() == old(self).spec_height(),
            final(self).grid() == old(self).grid().update(
                i as int * old(self).spec_width() as int + j as int,
                c,
            ),
    {
        let n: usize = self.pixels.len();
        proof {
            lemma_flat_index_in_range(
                i as int,
                j as int,
                self.spec_width() as int,
                self.spec_height() as int,
            );
            assert(n == self.grid().len());
        }
        let k: usize = (i as usize) * (self.width as usize) + (j as usize);
        self.pixels.set(k, c);
    }

    /// Fills every pixel from its coordinates, in parallel across pixels: the
    /// writes are disjoint (one slot per flat index) and `f` only reads its
    /// arguments, so afterwards the slot of row `i`, column `j` holds a value
    /// that `f` can return for `(i, j)`.
    pub fn process_in_parallel<F: Fn(u32, u32) -> Color + Sync + Send>(&mut self, f: F)
        requires
            old(self).wf(),
            forall|i: u32, j: u32|
                i < old(self).spec_height() && j < old(self).spec_width() ==> call_requires(
                    f,
                    (i, j),
                ),
        ensures
            final(self).wf(),
            final(self).spec_width() == old(self).spec_width(),
            final(self).spec_height() == old(self).spec_height(),
            forall|k: int|
                0 <= k < final(self).grid().len() ==> call_ensures(
                    f,
                    (
                        (k / old(self).spec_width() as int) as u32,
                        (k % old(self).spec_width() as int) as u32,
                    ),
                    #[trigger] final(self).grid()[k],
                ),
    {
        let width = self.width;
        let height = self.height;
        let fr = &f;
        let g = |k: usize| -> (c: Color)
            requires
                k < width as int * height as int,
            ensures
                call_ensures(
                    *fr,
                    ((k as int / width as int) as u32, (k as int % width as int) as u32),
                    c,
                ),
            {
                proof {
                    lemma_flat_index_split(k as int, width as int, height as int);
                }
                let i: u32 = (k / (width as usize)) as u32;
                let j: u32 = (k % (width as usize)) as u32;
                fr(i, j)
            };
        par_fill(&mut self.pixels, g);
        let n: usize = self.pixels.len();
        proof {
            assert forall|k: int| 0 <= k < self.grid().len() implies call_ensures(
                f,
                ((k / width as int) as u32, (k % width as int) as u32),
                #[trigger] self.grid()[k],
            ) by {
                assert(k < n as int);
                assert(call_ensures(g, (k as usize,), self.grid()[k]));
                assert(*fr == f);
            }
        }
    }
}

/// A coordinate pair inside the grid names a slot inside the buffer.
pub(crate) proof fn lemma_flat_index_in_range(i: int, j: int, width: int, height: int)
    requires
        0 <= i < height,
        0 <= j < width,
    ensures
        0 <= i * width + j < width * height,
{
    assert(0 <= i * width + j < width * height) by (nonlinear_arith)
        requires
            0 <= i < height,
            0 <= j < width,
    ;
}

/// Dividing a flat index inside the grid by the width recovers a coordinate
/// pair inside the grid.
proof fn lemma_flat_index_split(k: int, width: int, height: int)
    requires
        0 <= width,
        0 <= height,
        0 <= k < width * height,
    ensures
        0 < width,
        0 <= k / width < height,
        0 <= k % width < width,
{
    assert(0 < width) by (nonlinear_arith)
        requires
            0 <= width,
            0 <= k < width * height,
    ;
    assert(0 <= k / width < height && 0 <= k % width < width) by (nonlinear_arith)
        requires
            0 <= k < width * height,
            0 < width,
    ;
}

/// Relies on rayon's `par_iter_mut().enumerate().for_each(..)` over a `Vec`:
/// the closure runs exactly once for each slot, receiving that slot's index
/// and a mutable reference to that slot alone, so afterwards slot `k` holds
/// what the closure returned for `k` and the length is unchanged.
#[verifier::external_body]
fn par_fill<F: Fn(usize) -> Color + Sync + Send>(pixels: &mut Vec<Color>, f: F)
    requires
        forall|k: usize| k < old(pixels)@.len() ==> call_requires(f, (k,)),
    ensures
        final(pixels)@.len() == old(pixels)@.len(),
        forall|k: int|
            0 <= k < final(pixels)@.len() ==> call_ensures(
                f,
                (k as usize,),
                #[trigger] final(pixels)@[k],
            ),
{
    pixels.par_iter_mut().enumerate().for_each(|(k, slot)| *slot = f(k));
}

} // verus!

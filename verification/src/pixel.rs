//! Colors and the dense pixel buffer that the carving passes work on.

use vstd::prelude::*;
use crate::grid::{
    from_flat, height_of, lemma_cell_index, lemma_row_major_from_flat, row_major, transpose,
    transpose_flat, well_shaped, width_of,
};

verus! {

/// One pixel: four 8-bit channel intensities.
#[derive(Clone, Copy, Debug, PartialEq, Eq)]
pub struct Color {
    pub r: u8,
    pub g: u8,
    pub b: u8,
    pub a: u8,
}

/// Absolute difference of two channel samples.
pub open spec fn channel_gap(x: u8, y: u8) -> nat {
    if x >= y {
        (x - y) as nat
    } else {
        (y - x) as nat
    }
}

/// Sum over the four channels of the absolute sample differences.
pub open spec fn color_distance(p: Color, q: Color) -> nat {
    channel_gap(p.r, q.r) + channel_gap(p.g, q.g) + channel_gap(p.b, q.b) + channel_gap(p.a, q.a)
}

/// Mean of two channel samples, rounded down.
pub open spec fn channel_mean(x: u8, y: u8) -> u8 {
    ((x + y) / 2) as u8
}

/// Channel-wise mean of two colors.
pub open spec fn color_mean(p: Color, q: Color) -> Color {
    Color {
        r: channel_mean(p.r, q.r),
        g: channel_mean(p.g, q.g),
        b: channel_mean(p.b, q.b),
        a: channel_mean(p.a, q.a),
    }
}

fn gap(x: u8, y: u8) -> (d: u32)
    ensures
        d == channel_gap(x, y),
        d <= 255,
{
    if x >= y {
        (x - y) as u32
    } else {
        (y - x) as u32
    }
}

fn mean(x: u8, y: u8) -> (m: u8)
    ensures
        m == channel_mean(x, y),
{
    ((x as u16 + y as u16) / 2) as u8
}

impl Color {
    /// Sum over the four channels of the absolute sample differences between
    /// `self` and `other`; at most `4 * 255`.
    pub fn distance(&self, other: &Color) -> (d: u32)
        ensures
            d == color_distance(*self, *other),
            d <= 1020,
    {
        gap(self.r, other.r) + gap(self.g, other.g) + gap(self.b, other.b) + gap(self.a, other.a)
    }

    /// Channel-wise mean of `self` and `other`, each channel rounded down.
    pub fn blend(&self, other: &Color) -> (m: Color)
        ensures
            m == color_mean(*self, *other),
    {
        Color {
            r: mean(self.r, other.r),
            g: mean(self.g, other.g),
            b: mean(self.b, other.b),
            a: mean(self.a, other.a),
        }
    }
}

/// The color whose four samples start at position `4 * i` of `data`.
pub open spec fn color_at(data: Seq<u8>, i: int) -> Color {
    Color { r: data[4 * i], g: data[4 * i + 1], b: data[4 * i + 2], a: data[4 * i + 3] }
}

/// The colors packed in `data` as consecutive red, green, blue and alpha
/// samples.
pub open spec fn unpacked(data: Seq<u8>) -> Seq<Color> {
    Seq::new(data.len() / 4, |i: int| color_at(data, i))
}

/// Sample number `k` of a color, in the order red, green, blue, alpha.
pub open spec fn sample(p: Color, k: int) -> u8 {
    if k == 0 {
        p.r
    } else if k == 1 {
        p.g
    } else if k == 2 {
        p.b
    } else {
        p.a
    }
}

/// The colors of `pixels` packed as consecutive red, green, blue and alpha
/// samples.
pub open spec fn packed(pixels: Seq<Color>) -> Seq<u8> {
    Seq::new(4 * pixels.len(), |i: int| sample(pixels[i / 4], i % 4))
}

/// Unpacking what was packed gives the colors back.
pub proof fn lemma_unpacked_packed(pixels: Seq<Color>)
    ensures
        unpacked(packed(pixels)) == pixels,
{
}

/// Packing what was unpacked from whole pixels gives the samples back.
pub proof fn lemma_packed_unpacked(data: Seq<u8>)
    requires
        data.len() % 4 == 0,
    ensures
        packed(unpacked(data)) == data,
{
}

/// A dense `width * height` raster of colors, stored row-major.
///
/// A buffer always holds at least one pixel; its view is the grid of its rows.
#[derive(Debug, PartialEq, Eq)]
pub struct PixelBuffer {
    width: usize,
    height: usize,
    pixels: Vec<Color>,
}

impl View for PixelBuffer {
    type V = Seq<Seq<Color>>;

    closed spec fn view(&self) -> Seq<Seq<Color>> {
        from_flat(self.pixels@, self.width as int, self.height as int)
    }
}

impl Clone for PixelBuffer {
    fn clone(&self) -> (copy: PixelBuffer)
        ensures
            copy@ == self@,
    {
        proof {
            use_type_invariant(self);
        }
        let pixels = self.pixels.clone();
        PixelBuffer { width: self.width, height: self.height, pixels }
    }
}

impl PixelBuffer {
    #[verifier::type_invariant]
    closed spec fn inv(&self) -> bool {
        &&& self.width >= 1
        &&& self.height >= 1
        &&& self.pixels.len() == self.width * self.height
    }

    /// Wraps `pixels`, read row-major, as a buffer of the given dimensions.
    ///
    /// Succeeds exactly when both dimensions are positive and `pixels` holds
    /// `width * height` entries.
    pub fn new(width: usize, height: usize, pixels: Vec<Color>) -> (made: Option<PixelBuffer>)
        ensures
            made.is_some() <==> (width >= 1 && height >= 1 && pixels.len() == width * height),
            made matches Some(b) ==> b@ == from_flat(pixels@, width as int, height as int),
    {
        if width == 0 || height == 0 {
            return None;
        }
        match width.checked_mul(height) {
            Some(n) => {
                if pixels.len() == n {
                    Some(PixelBuffer { width, height, pixels })
                } else {
                    None
                }
            },
            None => None,
        }
    }

    /// Number of columns.
    pub fn width(&self) -> (w: usize)
        ensures
            w == width_of(self@),
            w >= 1,
            well_shaped(self@),
            width_of(self@) * height_of(self@) <= usize::MAX,
    {
        proof {
            use_type_invariant(self);
        }
        self.width
    }

    /// Number of rows.
    pub fn height(&self) -> (h: usize)
        ensures
            h == height_of(self@),
            h >= 1,
            well_shaped(self@),
            width_of(self@) * height_of(self@) <= usize::MAX,
    {
        proof {
            use_type_invariant(self);
        }
        self.height
    }

    /// The pixel in row `row`, column `col`.
    pub fn get(&self, row: usize, col: usize) -> (p: Color)
        requires
            row < height_of(self@),
            col < width_of(self@),
        ensures
            p == self@[row as int][col as int],
    {
        proof {
            use_type_invariant(self);
            lemma_cell_index(self.width as int, self.height as int, row as int, col as int);
        }
        self.pixels[row * self.width + col]
    }

    /// Reads a buffer of the given dimensions from packed samples: four bytes
    /// per pixel (red, green, blue, alpha), pixels in reading order.
    ///
    /// Succeeds exactly when both dimensions are positive and `data` holds
    /// `4 * width * height` bytes.
    pub fn from_rgba(width: usize, height: usize, data: &[u8]) -> (made: Option<PixelBuffer>)
        ensures
            made.is_some() <==> (width >= 1 && height >= 1 && data.len() == 4 * (width * height)),
            made matches Some(b) ==> b@ == from_flat(unpacked(data@), width as int, height as int),
    {
        if width == 0 || height == 0 {
            return None;
        }
        let count = match width.checked_mul(height) {
            Some(n) => n,
            None => {
                return None;
            },
        };
        let total = match count.checked_mul(4) {
            Some(n) => n,
            None => {
                return None;
            },
        };
        if data.len() != total {
            return None;
        }
        let mut pixels: Vec<Color> = Vec::new();
        let mut i: usize = 0;
        while i < count
            invariant
                i <= count,
                data.len() == 4 * count,
                pixels.len() == i,
                forall|k: int| 0 <= k < i ==> pixels[k] == color_at(data@, k),
            decreases count - i,
        {
            let at = 4 * i;
            pixels.push(Color { r: data[at], g: data[at + 1], b: data[at + 2], a: data[at + 3] });
            i += 1;
        }
        proof {
            assert(pixels@ =~= unpacked(data@));
        }
        Some(PixelBuffer { width, height, pixels })
    }

    /// Packs the buffer as four bytes per pixel (red, green, blue, alpha),
    /// pixels in reading order.
    pub fn to_rgba(&self) -> (data: Vec<u8>)
        ensures
            data@ == packed(row_major(self@)),
    {
        proof {
            use_type_invariant(self);
            lemma_row_major_from_flat(self.pixels@, self.width as int, self.height as int);
        }
        let mut data: Vec<u8> = Vec::new();
        let mut i: usize = 0;
        while i < self.pixels.len()
            invariant
                i <= self.pixels.len(),
                data@.len() == 4 * i,
                forall|k: int| 0 <= k < 4 * i ==> data[k] == sample(self.pixels[k / 4], k % 4),
            decreases self.pixels.len() - i,
        {
            let p = self.pixels[i];
            data.push(p.r);
            data.push(p.g);
            data.push(p.b);
            data.push(p.a);
            i += 1;
        }
        data
    }

    /// The buffer mirrored along its main diagonal.
    pub fn transposed(&self) -> (t: PixelBuffer)
        ensures
            t@ == transpose(self@),
    {
        proof {
            use_type_invariant(self);
        }
        let pixels = transpose_flat(&self.pixels, self.width, self.height);
        proof {
            assert(self.width * self.height == self.height * self.width) by (nonlinear_arith);
        }
        PixelBuffer { width: self.height, height: self.width, pixels }
    }
}

} // verus!

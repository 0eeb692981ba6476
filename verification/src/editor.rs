//! Applying a seam to a pixel buffer: removal shrinks the buffer by one
//! column or row, insertion grows it by one.

use vstd::prelude::*;
use crate::energy::clamp_index;
use crate::grid::{
    filled_up_to, height_of, lemma_fill_done, lemma_fill_next, lemma_transpose_shape, transpose,
    well_shaped, width_of,
};
use crate::pixel::{color_mean, Color, PixelBuffer};
use crate::seam::{offsets, seam_fits, within, Axis, Seam, SeamModel};

verus! {

/// The dimension that a seam of direction `axis` changes: the width for a
/// vertical seam, the height for a horizontal one.
pub open spec fn extent<T>(g: Seq<Seq<T>>, axis: Axis) -> int {
    match axis {
        Axis::Vertical => width_of(g),
        Axis::Horizontal => height_of(g),
    }
}

/// The dimension that a seam of direction `axis` leaves alone, which is also
/// the number of its entries.
pub open spec fn span<T>(g: Seq<Seq<T>>, axis: Axis) -> int {
    match axis {
        Axis::Vertical => height_of(g),
        Axis::Horizontal => width_of(g),
    }
}

/// `g` without, in each row `r`, the pixel in column `path[r]`; the pixels to
/// its right move one column left.
pub open spec fn cut_columns(g: Seq<Seq<Color>>, path: Seq<int>) -> Seq<Seq<Color>> {
    Seq::new(g.len(), |r: int| g[r].remove(path[r]))
}

/// The color synthesised right after column `c` of `row`: the channel-wise
/// mean of the pixel in column `c` and the pixel to its right, or of the pixel
/// in column `c` with itself at the right border.
pub open spec fn filler(row: Seq<Color>, c: int) -> Color {
    color_mean(row[c], row[clamp_index(c + 1, row.len() as int)])
}

/// `g` with, in each row `r`, a synthesised pixel right after column
/// `path[r]`; the pixels to its right move one column right.
pub open spec fn add_columns(g: Seq<Seq<Color>>, path: Seq<int>) -> Seq<Seq<Color>> {
    Seq::new(g.len(), |r: int| g[r].insert(path[r] + 1, filler(g[r], path[r])))
}

/// `g` after the removal of seam `s`. A horizontal seam is removed as a
/// vertical seam of the transposed grid.
pub open spec fn removed(g: Seq<Seq<Color>>, s: SeamModel) -> Seq<Seq<Color>> {
    match s.axis {
        Axis::Vertical => cut_columns(g, s.path),
        Axis::Horizontal => transpose(cut_columns(transpose(g), s.path)),
    }
}

/// `g` after the insertion of seam `s`. A horizontal seam is inserted as a
/// vertical seam of the transposed grid.
pub open spec fn inserted(g: Seq<Seq<Color>>, s: SeamModel) -> Seq<Seq<Color>> {
    match s.axis {
        Axis::Vertical => add_columns(g, s.path),
        Axis::Horizontal => transpose(add_columns(transpose(g), s.path)),
    }
}

/// Cutting one pixel out of every row makes the grid one column narrower.
pub proof fn lemma_cut_columns_shape(g: Seq<Seq<Color>>, path: Seq<int>)
    requires
        well_shaped(g),
        width_of(g) >= 2,
        path.len() == height_of(g),
        within(path, width_of(g)),
    ensures
        well_shaped(cut_columns(g, path)),
        width_of(cut_columns(g, path)) == width_of(g) - 1,
        height_of(cut_columns(g, path)) == height_of(g),
{
}

/// Adding one pixel to every row makes the grid one column wider.
pub proof fn lemma_add_columns_shape(g: Seq<Seq<Color>>, path: Seq<int>)
    requires
        well_shaped(g),
        path.len() == height_of(g),
        within(path, width_of(g)),
    ensures
        well_shaped(add_columns(g, path)),
        width_of(add_columns(g, path)) == width_of(g) + 1,
        height_of(add_columns(g, path)) == height_of(g),
{
}

/// Removing a seam shortens the dimension it crosses by one and keeps the
/// other.
pub proof fn lemma_removed_shape(g: Seq<Seq<Color>>, s: SeamModel)
    requires
        well_shaped(g),
        seam_fits(s, width_of(g), height_of(g)),
        extent(g, s.axis) >= 2,
    ensures
        well_shaped(removed(g, s)),
        extent(removed(g, s), s.axis) == extent(g, s.axis) - 1,
        span(removed(g, s), s.axis) == span(g, s.axis),
{
    match s.axis {
        Axis::Vertical => {
            lemma_cut_columns_shape(g, s.path);
        },
        Axis::Horizontal => {
            lemma_transpose_shape(g);
            lemma_cut_columns_shape(transpose(g), s.path);
            lemma_transpose_shape(cut_columns(transpose(g), s.path));
        },
    }
}

/// Inserting a seam lengthens the dimension it crosses by one and keeps the
/// other.
pub proof fn lemma_inserted_shape(g: Seq<Seq<Color>>, s: SeamModel)
    requires
        well_shaped(g),
        seam_fits(s, width_of(g), height_of(g)),
    ensures
        well_shaped(inserted(g, s)),
        extent(inserted(g, s), s.axis) == extent(g, s.axis) + 1,
        span(inserted(g, s), s.axis) == span(g, s.axis),
{
    match s.axis {
        Axis::Vertical => {
            lemma_add_columns_shape(g, s.path);
        },
        Axis::Horizontal => {
            lemma_transpose_shape(g);
            lemma_add_columns_shape(transpose(g), s.path);
            lemma_transpose_shape(add_columns(transpose(g), s.path));
        },
    }
}

/// Where each pixel of a grid comes from after a seam was removed: in front
/// of the seam it stays where it was, behind the seam it is the pixel that was
/// one step further along the changed dimension.
pub proof fn lemma_removed_pixels(g: Seq<Seq<Color>>, s: SeamModel, r: int, c: int)
    requires
        well_shaped(g),
        seam_fits(s, width_of(g), height_of(g)),
        extent(g, s.axis) >= 2,
        0 <= r < height_of(removed(g, s)),
        0 <= c < width_of(removed(g, s)),
    ensures
        s.axis == Axis::Vertical ==> removed(g, s)[r][c] == if c < s.path[r] {
            g[r][c]
        } else {
            g[r][c + 1]
        },
        s.axis == Axis::Horizontal ==> removed(g, s)[r][c] == if r < s.path[c] {
            g[r][c]
        } else {
            g[r + 1][c]
        },
{
    lemma_removed_shape(g, s);
    match s.axis {
        Axis::Vertical => {
            g[r].remove_ensures(s.path[r]);
        },
        Axis::Horizontal => {
            let t = transpose(g);
            lemma_transpose_shape(g);
            lemma_cut_columns_shape(t, s.path);
            t[c].remove_ensures(s.path[c]);
        },
    }
}

/// Where each pixel of a grid comes from after a seam was inserted: up to the
/// seam it stays where it was, right behind the seam stands the mean of the
/// seam pixel and the pixel that followed it (the seam pixel itself at the
/// border), and further on it is the pixel that was one step back.
pub proof fn lemma_inserted_pixels(g: Seq<Seq<Color>>, s: SeamModel, r: int, c: int)
    requires
        well_shaped(g),
        seam_fits(s, width_of(g), height_of(g)),
        0 <= r < height_of(inserted(g, s)),
        0 <= c < width_of(inserted(g, s)),
    ensures
        s.axis == Axis::Vertical ==> inserted(g, s)[r][c] == if c <= s.path[r] {
            g[r][c]
        } else if c == s.path[r] + 1 {
            color_mean(g[r][s.path[r]], g[r][clamp_index(s.path[r] + 1, width_of(g))])
        } else {
            g[r][c - 1]
        },
        s.axis == Axis::Horizontal ==> inserted(g, s)[r][c] == if r <= s.path[c] {
            g[r][c]
        } else if r == s.path[c] + 1 {
            color_mean(g[s.path[c]][c], g[clamp_index(s.path[c] + 1, height_of(g))][c])
        } else {
            g[r - 1][c]
        },
{
    lemma_inserted_shape(g, s);
    match s.axis {
        Axis::Vertical => {
            g[r].insert_ensures(s.path[r] + 1, filler(g[r], s.path[r]));
        },
        Axis::Horizontal => {
            let t = transpose(g);
            lemma_transpose_shape(g);
            lemma_add_columns_shape(t, s.path);
            t[c].insert_ensures(s.path[c] + 1, filler(t[c], s.path[c]));
        },
    }
}

/// Removing any fitting seam from a buffer into which a seam of the same
/// direction was inserted gives back the width and height it started with,
/// for every image, whatever its size: insertion adds one to the crossed
/// dimension (`lemma_inserted_shape`) and removal takes it off again. The
/// pixels need not come back, since insertion makes new ones.
pub proof fn lemma_remove_after_insert_shape(g: Seq<Seq<Color>>, s: SeamModel, t: SeamModel)
    requires
        well_shaped(g),
        seam_fits(s, width_of(g), height_of(g)),
        t.axis == s.axis,
        seam_fits(t, width_of(inserted(g, s)), height_of(inserted(g, s))),
    ensures
        extent(inserted(g, s), s.axis) == extent(g, s.axis) + 1,
        span(inserted(g, s), s.axis) == span(g, s.axis),
        well_shaped(removed(inserted(g, s), t)),
        width_of(removed(inserted(g, s), t)) == width_of(g),
        height_of(removed(inserted(g, s), t)) == height_of(g),
{
    lemma_inserted_shape(g, s);
    lemma_removed_shape(inserted(g, s), t);
}

fn cut_out(buffer: &PixelBuffer, path: &Vec<usize>) -> (out: PixelBuffer)
    requires
        width_of(buffer@) >= 2,
        path.len() == height_of(buffer@),
        within(offsets(path@), width_of(buffer@)),
    ensures
        out@ == cut_columns(buffer@, offsets(path@)),
{
    let w = buffer.width();
    let h = buffer.height();
    let ghost g = buffer@;
    let ghost p = offsets(path@);
    let ghost goal = cut_columns(g, p);
    proof {
        lemma_cut_columns_shape(g, p);
    }
    let mut pixels: Vec<Color> = Vec::new();
    let mut r: usize = 0;
    let mut c: usize = 0;
    while r < h
        invariant
            r <= h,
            c < w - 1,
            r == h ==> c == 0,
            g == buffer@,
            p == offsets(path@),
            within(p, w as int),
            path.len() == h,
            w == width_of(g),
            h == height_of(g),
            w >= 2,
            well_shaped(g),
            goal == cut_columns(g, p),
            filled_up_to(pixels@, goal, w - 1, r as int, c as int),
        decreases h - r, w - c,
    {
        let skip = path[r];
        assert(skip == p[r as int]);
        let source = if c < skip {
            c
        } else {
            c + 1
        };
        let pixel = buffer.get(r, source);
        proof {
            g[r as int].remove_ensures(skip as int);
            lemma_fill_next(pixels@, pixel, goal, w - 1, r as int, c as int);
        }
        pixels.push(pixel);
        c += 1;
        if c == w - 1 {
            c = 0;
            r += 1;
        }
    }
    proof {
        lemma_fill_done(pixels@, goal, w - 1, h as int);
    }
    PixelBuffer::new(w - 1, h, pixels).unwrap()
}

fn fill_in(buffer: &PixelBuffer, path: &Vec<usize>) -> (out: PixelBuffer)
    requires
        (width_of(buffer@) + 1) * height_of(buffer@) <= usize::MAX,
        path.len() == height_of(buffer@),
        within(offsets(path@), width_of(buffer@)),
    ensures
        out@ == add_columns(buffer@, offsets(path@)),
{
    let w = buffer.width();
    let h = buffer.height();
    let ghost g = buffer@;
    let ghost p = offsets(path@);
    let ghost goal = add_columns(g, p);
    proof {
        lemma_add_columns_shape(g, p);
        assert(w + 1 <= usize::MAX) by (nonlinear_arith)
            requires
                (w + 1) * h <= usize::MAX,
                h >= 1,
        ;
    }
    let mut pixels: Vec<Color> = Vec::new();
    let mut r: usize = 0;
    let mut c: usize = 0;
    while r < h
        invariant
            r <= h,
            c < w + 1,
            r == h ==> c == 0,
            g == buffer@,
            p == offsets(path@),
            within(p, w as int),
            path.len() == h,
            w == width_of(g),
            h == height_of(g),
            w >= 1,
            w + 1 <= usize::MAX,
            well_shaped(g),
            goal == add_columns(g, p),
            filled_up_to(pixels@, goal, w + 1, r as int, c as int),
        decreases h - r, w + 1 - c,
    {
        let at = path[r];
        assert(at == p[r as int]);
        let pixel = if c <= at {
            buffer.get(r, c)
        } else if c == at + 1 {
            let right = if at + 1 < w {
                at + 1
            } else {
                w - 1
            };
            buffer.get(r, at).blend(&buffer.get(r, right))
        } else {
            buffer.get(r, c - 1)
        };
        proof {
            g[r as int].insert_ensures(at + 1, filler(g[r as int], at as int));
            lemma_fill_next(pixels@, pixel, goal, w + 1, r as int, c as int);
        }
        pixels.push(pixel);
        c += 1;
        if c == w + 1 {
            c = 0;
            r += 1;
        }
    }
    proof {
        lemma_fill_done(pixels@, goal, w + 1, h as int);
    }
    PixelBuffer::new(w + 1, h, pixels).unwrap()
}

/// Removes `seam` from `buffer`.
///
/// For a vertical seam, each row loses the pixel in the seam's column and the
/// pixels to its right move one column left; the buffer becomes one column
/// narrower. For a horizontal seam, each column loses the pixel in the seam's
/// row and the pixels below move one row up; the buffer becomes one row
/// shorter. The seam must fit the buffer, and the buffer must keep at least
/// one pixel.
pub fn remove(buffer: &PixelBuffer, seam: &Seam) -> (out: PixelBuffer)
    requires
        seam_fits(seam@, width_of(buffer@), height_of(buffer@)),
        extent(buffer@, seam@.axis) >= 2,
    ensures
        out@ == removed(buffer@, seam@),
        extent(out@, seam@.axis) == extent(buffer@, seam@.axis) - 1,
        span(out@, seam@.axis) == span(buffer@, seam@.axis),
{
    let w = buffer.width();
    proof {
        lemma_removed_shape(buffer@, seam@);
    }
    match seam.axis() {
        Axis::Vertical => cut_out(buffer, seam.path()),
        Axis::Horizontal => {
            proof {
                lemma_transpose_shape(buffer@);
            }
            let turned = buffer.transposed();
            cut_out(&turned, seam.path()).transposed()
        },
    }
}

/// Inserts a new pixel along `seam` into `buffer`.
///
/// For a vertical seam, each row gains a pixel right after the seam's column,
/// colored with the channel-wise mean of the pixels that end up on its left
/// and right (the seam pixel itself at the right border); the buffer becomes
/// one column wider. For a horizontal seam the same happens along the columns
/// and the buffer becomes one row taller. The seam must fit the buffer, and
/// the grown buffer's pixel count must fit in `usize`.
pub fn insert(buffer: &PixelBuffer, seam: &Seam) -> (out: PixelBuffer)
    requires
        seam_fits(seam@, width_of(buffer@), height_of(buffer@)),
        (extent(buffer@, seam@.axis) + 1) * span(buffer@, seam@.axis) <= usize::MAX,
    ensures
        out@ == inserted(buffer@, seam@),
        extent(out@, seam@.axis) == extent(buffer@, seam@.axis) + 1,
        span(out@, seam@.axis) == span(buffer@, seam@.axis),
{
    let w = buffer.width();
    proof {
        lemma_inserted_shape(buffer@, seam@);
    }
    match seam.axis() {
        Axis::Vertical => fill_in(buffer, seam.path()),
        Axis::Horizontal => {
            proof {
                lemma_transpose_shape(buffer@);
            }
            let turned = buffer.transposed();
            fill_in(&turned, seam.path()).transposed()
        },
    }
}

} // verus!

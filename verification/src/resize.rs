//! The resizer: drives a buffer to its target size one seam at a time.
//!
//! The width is adjusted first, then the height. Before every single seam the
//! energy is computed afresh from the buffer as it then stands.

use vstd::prelude::*;
use crate::editor::{
    extent, insert, inserted, lemma_inserted_shape, lemma_removed_shape, remove, removed, span,
};
use crate::energy::{
    energy_grid, lemma_energy_grid_shape, lemma_energy_of_transpose, EnergyField,
};
use crate::grid::{
    height_of, lemma_transpose_involution, lemma_transpose_shape, transpose, well_shaped, width_of,
};
use crate::pixel::{Color, PixelBuffer};
use crate::finder::{
    find_horizontal_seam, find_vertical_seam, horizontal_seam, lemma_horizontal_seam_crosses,
    lemma_vertical_seam_crosses, vertical_seam,
};
use crate::seam::{connected, seam_fits, Axis, Seam, SeamModel};

verus! {

/// Why a resize was refused.
#[derive(Clone, Copy, Debug, PartialEq, Eq)]
pub enum ResizeError {
    /// The target width or the target height is zero.
    InvalidTarget,
}

/// A target size for a resize: both dimensions are at least one.
///
/// Its view is the pair of target width and target height.
#[derive(Clone, Copy, Debug, PartialEq, Eq)]
pub struct ResizeRequest {
    target_width: usize,
    target_height: usize,
}

impl View for ResizeRequest {
    type V = (int, int);

    closed spec fn view(&self) -> (int, int) {
        (self.target_width as int, self.target_height as int)
    }
}

/// The seam of direction `axis` that is applied next to `g`: the one of least
/// total energy in the energy of `g` itself.
pub open spec fn next_seam(g: Seq<Seq<Color>>, axis: Axis) -> SeamModel {
    match axis {
        Axis::Vertical => SeamModel { axis, path: vertical_seam(energy_grid(g)) },
        Axis::Horizontal => SeamModel { axis, path: horizontal_seam(energy_grid(g)) },
    }
}

/// `g` after `n` seams of direction `axis` were removed, each found in the
/// grid that the removals before it left.
pub open spec fn shrunk(g: Seq<Seq<Color>>, axis: Axis, n: nat) -> Seq<Seq<Color>>
    decreases n,
{
    if n == 0 {
        g
    } else {
        shrunk(removed(g, next_seam(g, axis)), axis, (n - 1) as nat)
    }
}

/// `g` after `n` seams of direction `axis` were inserted, each found in the
/// grid that the insertions before it left.
pub open spec fn grown(g: Seq<Seq<Color>>, axis: Axis, n: nat) -> Seq<Seq<Color>>
    decreases n,
{
    if n == 0 {
        g
    } else {
        grown(inserted(g, next_seam(g, axis)), axis, (n - 1) as nat)
    }
}

/// `g` brought to `target` along the dimension that seams of direction `axis`
/// change, by removals if it is too long and by insertions if it is too short.
pub open spec fn adjusted(g: Seq<Seq<Color>>, axis: Axis, target: int) -> Seq<Seq<Color>> {
    if target <= extent(g, axis) {
        shrunk(g, axis, (extent(g, axis) - target) as nat)
    } else {
        grown(g, axis, (target - extent(g, axis)) as nat)
    }
}

/// `g` resized to `tw` columns and `th` rows: first the width is adjusted by
/// vertical seams, then the height by horizontal seams.
pub open spec fn resized(g: Seq<Seq<Color>>, tw: int, th: int) -> Seq<Seq<Color>> {
    adjusted(adjusted(g, Axis::Vertical, tw), Axis::Horizontal, th)
}

/// The next seam fits the grid it was found in, and is connected.
pub proof fn lemma_next_seam_fits(g: Seq<Seq<Color>>, axis: Axis)
    requires
        well_shaped(g),
    ensures
        next_seam(g, axis).axis == axis,
        seam_fits(next_seam(g, axis), width_of(g), height_of(g)),
        connected(next_seam(g, axis).path),
{
    lemma_energy_grid_shape(g);
    match axis {
        Axis::Vertical => lemma_vertical_seam_crosses(energy_grid(g)),
        Axis::Horizontal => lemma_horizontal_seam_crosses(energy_grid(g)),
    }
}

/// Removing `n` seams shortens the crossed dimension by `n` and keeps the
/// other, as long as at least one pixel stays.
pub proof fn lemma_shrunk_shape(g: Seq<Seq<Color>>, axis: Axis, n: nat)
    requires
        well_shaped(g),
        n < extent(g, axis),
    ensures
        well_shaped(shrunk(g, axis, n)),
        extent(shrunk(g, axis, n), axis) == extent(g, axis) - n,
        span(shrunk(g, axis, n), axis) == span(g, axis),
    decreases n,
{
    if n > 0 {
        lemma_next_seam_fits(g, axis);
        lemma_removed_shape(g, next_seam(g, axis));
        lemma_shrunk_shape(removed(g, next_seam(g, axis)), axis, (n - 1) as nat);
    }
}

/// Inserting `n` seams lengthens the crossed dimension by `n` and keeps the
/// other.
pub proof fn lemma_grown_shape(g: Seq<Seq<Color>>, axis: Axis, n: nat)
    requires
        well_shaped(g),
    ensures
        well_shaped(grown(g, axis, n)),
        extent(grown(g, axis, n), axis) == extent(g, axis) + n,
        span(grown(g, axis, n), axis) == span(g, axis),
    decreases n,
{
    if n > 0 {
        lemma_next_seam_fits(g, axis);
        lemma_inserted_shape(g, next_seam(g, axis));
        lemma_grown_shape(inserted(g, next_seam(g, axis)), axis, (n - 1) as nat);
    }
}

/// Adjusting to a positive target reaches it exactly and keeps the other
/// dimension.
pub proof fn lemma_adjusted_shape(g: Seq<Seq<Color>>, axis: Axis, target: int)
    requires
        well_shaped(g),
        target >= 1,
    ensures
        well_shaped(adjusted(g, axis, target)),
        extent(adjusted(g, axis, target), axis) == target,
        span(adjusted(g, axis, target), axis) == span(g, axis),
{
    if target <= extent(g, axis) {
        lemma_shrunk_shape(g, axis, (extent(g, axis) - target) as nat);
    } else {
        lemma_grown_shape(g, axis, (target - extent(g, axis)) as nat);
    }
}

/// Horizontal seams are the vertical seams of the transposed image: removing
/// `n` of them is removing `n` vertical seams from the transposed image and
/// transposing back, and likewise for inserting.
pub proof fn lemma_horizontal_is_transposed_vertical(g: Seq<Seq<Color>>, n: nat)
    requires
        well_shaped(g),
    ensures
        n < height_of(g) ==> shrunk(g, Axis::Horizontal, n) == transpose(
            shrunk(transpose(g), Axis::Vertical, n),
        ),
        grown(g, Axis::Horizontal, n) == transpose(grown(transpose(g), Axis::Vertical, n)),
    decreases n,
{
    let t = transpose(g);
    lemma_transpose_shape(g);
    lemma_transpose_involution(g);
    if n > 0 {
        let across = next_seam(g, Axis::Horizontal);
        let down = next_seam(t, Axis::Vertical);
        lemma_energy_of_transpose(g);
        assert(across.path == down.path);
        lemma_next_seam_fits(t, Axis::Vertical);
        if n < height_of(g) {
            let cut = removed(t, down);
            lemma_removed_shape(t, down);
            lemma_transpose_shape(cut);
            lemma_transpose_involution(cut);
            assert(removed(g, across) == transpose(cut));
            lemma_horizontal_is_transposed_vertical(transpose(cut), (n - 1) as nat);
        }
        let added = inserted(t, down);
        lemma_inserted_shape(t, down);
        lemma_transpose_shape(added);
        lemma_transpose_involution(added);
        assert(inserted(g, across) == transpose(added));
        lemma_horizontal_is_transposed_vertical(transpose(added), (n - 1) as nat);
    }
}

/// A resized image has exactly the requested dimensions: for every image and
/// every pair of positive targets, however large, `resized` is `tw` wide and
/// `th` high. No limit of the machine enters here; `resize` computes
/// `resized` wherever the pixel counts on the way fit in `usize`.
pub proof fn lemma_resized_dimensions(g: Seq<Seq<Color>>, tw: int, th: int)
    requires
        well_shaped(g),
        tw >= 1,
        th >= 1,
    ensures
        well_shaped(resized(g, tw, th)),
        width_of(resized(g, tw, th)) == tw,
        height_of(resized(g, tw, th)) == th,
{
    lemma_adjusted_shape(g, Axis::Vertical, tw);
    lemma_adjusted_shape(adjusted(g, Axis::Vertical, tw), Axis::Horizontal, th);
}

/// Resizing an image to its own dimensions leaves every pixel where it is.
pub proof fn lemma_resized_identity(g: Seq<Seq<Color>>)
    requires
        well_shaped(g),
    ensures
        resized(g, width_of(g), height_of(g)) == g,
{
}

/// Resizing to the current width applies horizontal seams only, and resizing
/// to the current height applies vertical seams only.
pub proof fn lemma_resized_one_axis(g: Seq<Seq<Color>>, tw: int, th: int)
    requires
        well_shaped(g),
        tw >= 1,
        th >= 1,
    ensures
        tw == width_of(g) ==> resized(g, tw, th) == adjusted(g, Axis::Horizontal, th),
        th == height_of(g) ==> resized(g, tw, th) == adjusted(g, Axis::Vertical, tw),
{
    lemma_adjusted_shape(g, Axis::Vertical, tw);
}

fn extent_of(buffer: &PixelBuffer, axis: Axis) -> (n: usize)
    ensures
        n == extent(buffer@, axis),
        n >= 1,
        well_shaped(buffer@),
{
    match axis {
        Axis::Vertical => buffer.width(),
        Axis::Horizontal => buffer.height(),
    }
}

fn find_seam(buffer: &PixelBuffer, axis: Axis) -> (seam: Seam)
    ensures
        seam@ == next_seam(buffer@, axis),
        seam_fits(seam@, width_of(buffer@), height_of(buffer@)),
{
    let w = buffer.width();
    proof {
        lemma_next_seam_fits(buffer@, axis);
    }
    let energy = EnergyField::compute(buffer);
    match axis {
        Axis::Vertical => find_vertical_seam(&energy),
        Axis::Horizontal => find_horizontal_seam(&energy),
    }
}

/// Brings `buffer` to `target` along the dimension that seams of direction
/// `axis` change, one seam at a time.
pub fn adjust(buffer: PixelBuffer, axis: Axis, target: usize) -> (out: PixelBuffer)
    requires
        target >= 1,
        target * span(buffer@, axis) <= usize::MAX,
    ensures
        out@ == adjusted(buffer@, axis, target as int),
        extent(out@, axis) == target,
        span(out@, axis) == span(buffer@, axis),
{
    let ghost start = buffer@;
    let ghost goal = adjusted(start, axis, target as int);
    let mut current = buffer;
    let mut size = extent_of(&current, axis);
    proof {
        lemma_adjusted_shape(start, axis, target as int);
    }
    while size > target
        invariant
            target >= 1,
            size == extent(current@, axis),
            well_shaped(current@),
            span(current@, axis) == span(start, axis),
            extent(start, axis) >= target ==> size >= target && shrunk(
                current@,
                axis,
                (size - target) as nat,
            ) == goal,
            extent(start, axis) < target ==> current@ == start,
        decreases size,
    {
        let seam = find_seam(&current, axis);
        current = remove(&current, &seam);
        size = extent_of(&current, axis);
    }
    while size < target
        invariant
            target >= 1,
            size == extent(current@, axis),
            size <= target,
            well_shaped(current@),
            span(current@, axis) == span(start, axis),
            target * span(start, axis) <= usize::MAX,
            grown(current@, axis, (target - size) as nat) == goal,
        decreases target - size,
    {
        let seam = find_seam(&current, axis);
        proof {
            let n = span(start, axis);
            assert((size + 1) * n <= target * n) by (nonlinear_arith)
                requires
                    size + 1 <= target,
                    n >= 0,
            ;
        }
        current = insert(&current, &seam);
        size = extent_of(&current, axis);
    }
    current
}

impl ResizeRequest {
    #[verifier::type_invariant]
    closed spec fn inv(&self) -> bool {
        self.target_width >= 1 && self.target_height >= 1
    }

    /// Makes a request for the given target size.
    ///
    /// Fails with `InvalidTarget` exactly when a target dimension is zero.
    pub fn new(target_width: usize, target_height: usize) -> (made: Result<
        ResizeRequest,
        ResizeError,
    >)
        ensures
            made is Err <==> (target_width == 0 || target_height == 0),
            made matches Err(e) ==> e == ResizeError::InvalidTarget,
            made matches Ok(request) ==> request@ == (target_width as int, target_height as int),
    {
        if target_width == 0 || target_height == 0 {
            Err(ResizeError::InvalidTarget)
        } else {
            Ok(ResizeRequest { target_width, target_height })
        }
    }

    /// The requested number of columns.
    pub fn target_width(&self) -> (w: usize)
        ensures
            w == self@.0,
            w >= 1,
    {
        proof {
            use_type_invariant(self);
        }
        self.target_width
    }

    /// The requested number of rows.
    pub fn target_height(&self) -> (h: usize)
        ensures
            h == self@.1,
            h >= 1,
    {
        proof {
            use_type_invariant(self);
        }
        self.target_height
    }

    /// Resizes `buffer` to the requested size: first the width is adjusted,
    /// by removing or inserting vertical seams, then the height, by
    /// horizontal seams. Each seam is the one of least energy in the buffer
    /// as the seams before it left it.
    ///
    /// The pixel counts of the widened buffer and of the result must fit in
    /// `usize`.
    pub fn apply(&self, buffer: PixelBuffer) -> (out: PixelBuffer)
        requires
            self@.0 >= 1 && self@.1 >= 1 ==> self@.0 * height_of(buffer@) <= usize::MAX && self@.0
                * self@.1 <= usize::MAX,
        ensures
            out@ == resized(buffer@, self@.0, self@.1),
            width_of(out@) == self@.0,
            height_of(out@) == self@.1,
    {
        proof {
            use_type_invariant(self);
        }
        let wide = adjust(buffer, Axis::Vertical, self.target_width);
        proof {
            assert(self.target_height * self.target_width == self.target_width
                * self.target_height) by (nonlinear_arith);
        }
        adjust(wide, Axis::Horizontal, self.target_height)
    }
}

/// Resizes `buffer` to `target_width` columns and `target_height` rows by
/// seam carving.
///
/// Fails with `InvalidTarget` exactly when a target dimension is zero.
/// Otherwise the width is adjusted first, by removing or inserting vertical
/// seams, and then the height, by horizontal seams; each seam is the one of
/// least energy in the buffer as the seams before it left it. The result has
/// exactly the requested dimensions, and a buffer that already has them comes
/// back unchanged.
///
/// For positive targets, the pixel counts of the widened buffer and of the
/// result must fit in `usize`.
pub fn resize(buffer: PixelBuffer, target_width: usize, target_height: usize) -> (result: Result<
    PixelBuffer,
    ResizeError,
>)
    requires
        target_width >= 1 && target_height >= 1 ==> target_width * height_of(buffer@) <= usize::MAX
            && target_width * target_height <= usize::MAX,
    ensures
        result is Err <==> (target_width == 0 || target_height == 0),
        result matches Err(e) ==> e == ResizeError::InvalidTarget,
        result matches Ok(out) ==> {
            &&& out@ == resized(buffer@, target_width as int, target_height as int)
            &&& width_of(out@) == target_width
            &&& height_of(out@) == target_height
            &&& (target_width == width_of(buffer@) && target_height == height_of(buffer@) ==> out@
                == buffer@)
        },
{
    match ResizeRequest::new(target_width, target_height) {
        Ok(request) => Ok(request.apply(buffer)),
        Err(e) => Err(e),
    }
}

} // verus!

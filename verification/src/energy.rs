//! The energy field: a per-pixel importance map derived from local color
//! gradients.

use vstd::prelude::*;
use crate::grid::{
    filled_up_to, from_flat, height_of, lemma_cell_index, lemma_fill_done, lemma_fill_next,
    lemma_transpose_shape, transpose, transpose_flat, well_shaped, width_of,
};
use crate::pixel::{color_distance, Color, PixelBuffer};

verus! {

/// The upper bound of a single energy value: two gradients of four channels.
pub const MAX_ENERGY: u32 = 2040;

/// `i` moved to the nearest index inside `0..n`.
pub open spec fn clamp_index(i: int, n: int) -> int {
    if i < 0 {
        0
    } else if i >= n {
        n - 1
    } else {
        i
    }
}

/// Gradient energy of the pixel at `(r, c)`: the color distance between its
/// horizontal neighbours plus the color distance between its vertical
/// neighbours. A neighbour that would fall outside the grid is replaced by
/// the border pixel itself.
pub open spec fn energy_at(g: Seq<Seq<Color>>, r: int, c: int) -> nat {
    let w = width_of(g);
    let h = height_of(g);
    color_distance(g[r][clamp_index(c - 1, w)], g[r][clamp_index(c + 1, w)]) + color_distance(
        g[clamp_index(r - 1, h)][c],
        g[clamp_index(r + 1, h)][c],
    )
}

/// The energy of every pixel of `g`, in the shape of `g`.
pub open spec fn energy_grid(g: Seq<Seq<Color>>) -> Seq<Seq<nat>> {
    Seq::new(
        height_of(g) as nat,
        |r: int| Seq::new(width_of(g) as nat, |c: int| energy_at(g, r, c)),
    )
}

/// Every value of the grid fits in 32 bits.
pub open spec fn bounded_energies(e: Seq<Seq<nat>>) -> bool {
    forall|r: int, c: int|
        0 <= r < e.len() && 0 <= c < e[r].len() ==> #[trigger] e[r][c] <= u32::MAX
}

/// The stored samples read as natural numbers.
pub open spec fn samples(values: Seq<u32>) -> Seq<nat> {
    Seq::new(values.len(), |i: int| values[i] as nat)
}

/// A `width * height` raster of non-negative energies, stored row-major.
///
/// A field always holds at least one value; its view is the grid of its rows.
#[derive(Debug, PartialEq, Eq)]
pub struct EnergyField {
    width: usize,
    height: usize,
    values: Vec<u32>,
}

impl View for EnergyField {
    type V = Seq<Seq<nat>>;

    closed spec fn view(&self) -> Seq<Seq<nat>> {
        from_flat(samples(self.values@), self.width as int, self.height as int)
    }
}

impl EnergyField {
    #[verifier::type_invariant]
    closed spec fn inv(&self) -> bool {
        &&& self.width >= 1
        &&& self.height >= 1
        &&& self.values.len() == self.width * self.height
    }

    /// Wraps `values`, read row-major, as a field of the given dimensions.
    ///
    /// Succeeds exactly when both dimensions are positive and `values` holds
    /// `width * height` entries.
    pub fn new(width: usize, height: usize, values: Vec<u32>) -> (made: Option<EnergyField>)
        ensures
            made.is_some() <==> (width >= 1 && height >= 1 && values.len() == width * height),
            made matches Some(e) ==> e@ == from_flat(samples(values@), width as int, height as int),
    {
        if width == 0 || height == 0 {
            return None;
        }
        match width.checked_mul(height) {
            Some(n) => {
                if values.len() == n {
                    Some(EnergyField { width, height, values })
                } else {
                    None
                }
            },
            None => None,
        }
    }

    /// Number of columns.
    pub fn width(&self) -> (w: usize)
        ensures
            w == width_of(self@),
            w >= 1,
            well_shaped(self@),
            bounded_energies(self@),
    {
        proof {
            use_type_invariant(self);
            self.lemma_bounded();
        }
        self.width
    }

    /// Number of rows.
    pub fn height(&self) -> (h: usize)
        ensures
            h == height_of(self@),
            h >= 1,
            well_shaped(self@),
            bounded_energies(self@),
    {
        proof {
            use_type_invariant(self);
            self.lemma_bounded();
        }
        self.height
    }

    proof fn lemma_bounded(&self)
        requires
            self.inv(),
        ensures
            bounded_energies(self@),
    {
        assert forall|r: int, c: int|
            0 <= r < self@.len() && 0 <= c < self@[r].len() implies #[trigger] self@[r][c]
            <= u32::MAX by {
            lemma_cell_index(self.width as int, self.height as int, r, c);
        }
    }

    /// The energy in row `row`, column `col`.
    pub fn get(&self, row: usize, col: usize) -> (e: u32)
        requires
            row < height_of(self@),
            col < width_of(self@),
        ensures
            e == self@[row as int][col as int],
    {
        proof {
            use_type_invariant(self);
            lemma_cell_index(self.width as int, self.height as int, row as int, col as int);
        }
        self.values[row * self.width + col]
    }

    /// The field mirrored along its main diagonal.
    pub fn transposed(&self) -> (t: EnergyField)
        ensures
            t@ == transpose(self@),
    {
        proof {
            use_type_invariant(self);
        }
        let w = self.width;
        let h = self.height;
        let values = transpose_flat(&self.values, w, h);
        proof {
            assert(w * h == h * w) by (nonlinear_arith);
        }
        let t = EnergyField { width: h, height: w, values };
        proof {
            let flat = from_flat(self.values@, w as int, h as int);
            let goal = transpose(self@);
            assert forall|c: int| 0 <= c < w implies t@[c] == goal[c] by {
                assert forall|r: int| 0 <= r < h implies t@[c][r] == goal[c][r] by {
                    lemma_cell_index(h as int, w as int, c, r);
                    lemma_cell_index(w as int, h as int, r, c);
                    assert(transpose(flat)[c][r] == flat[r][c]);
                }
            }
        }
        t
    }

    /// Computes the gradient energy of every pixel of `buffer`.
    pub fn compute(buffer: &PixelBuffer) -> (field: EnergyField)
        ensures
            field@ == energy_grid(buffer@),
    {
        let w = buffer.width();
        let h = buffer.height();
        let ghost goal = energy_grid(buffer@);
        let mut values: Vec<u32> = Vec::new();
        let mut r: usize = 0;
        let mut c: usize = 0;
        while r < h
            invariant
                r <= h,
                c < w,
                r == h ==> c == 0,
                w == width_of(buffer@),
                h == height_of(buffer@),
                well_shaped(buffer@),
                goal == energy_grid(buffer@),
                filled_up_to(samples(values@), goal, w as int, r as int, c as int),
            decreases h - r, w - c,
        {
            let left = if c > 0 { c - 1 } else { 0 };
            let right = if c + 1 < w { c + 1 } else { w - 1 };
            let up = if r > 0 { r - 1 } else { 0 };
            let down = if r + 1 < h { r + 1 } else { h - 1 };
            let across = buffer.get(r, left).distance(&buffer.get(r, right));
            let along = buffer.get(up, c).distance(&buffer.get(down, c));
            let e = across + along;
            proof {
                lemma_fill_next(samples(values@), e as nat, goal, w as int, r as int, c as int);
                assert(samples(values@.push(e)) =~= samples(values@).push(e as nat));
            }
            values.push(e);
            c += 1;
            if c == w {
                c = 0;
                r += 1;
            }
        }
        proof {
            lemma_fill_done(samples(values@), goal, w as int, h as int);
        }
        EnergyField { width: w, height: h, values }
    }
}

/// The energy grid has the shape of the pixel grid and every value is at most
/// `MAX_ENERGY`.
pub proof fn lemma_energy_grid_shape(g: Seq<Seq<Color>>)
    requires
        well_shaped(g),
    ensures
        well_shaped(energy_grid(g)),
        width_of(energy_grid(g)) == width_of(g),
        height_of(energy_grid(g)) == height_of(g),
        forall|r: int, c: int|
            0 <= r < height_of(g) && 0 <= c < width_of(g) ==> #[trigger] energy_grid(g)[r][c]
                <= MAX_ENERGY,
        bounded_energies(energy_grid(g)),
{
}

/// Energy does not prefer a direction: the energy of the transposed grid is
/// the transposed energy.
pub proof fn lemma_energy_of_transpose(g: Seq<Seq<Color>>)
    requires
        well_shaped(g),
    ensures
        energy_grid(transpose(g)) == transpose(energy_grid(g)),
{
    let t = transpose(g);
    let a = energy_grid(t);
    let b = transpose(energy_grid(g));
    lemma_transpose_shape(g);
    lemma_energy_grid_shape(g);
    assert forall|c: int| 0 <= c < width_of(g) implies a[c] == b[c] by {
        assert(a[c] =~= b[c]);
    }
}

} // verus!

//! The seam finder: dynamic programming over an energy field, then
//! backtracking along the cheapest predecessors.

use vstd::prelude::*;
use crate::energy::{bounded_energies, EnergyField};
use crate::grid::{
    cell_index, filled_up_to, from_flat, height_of, is_grid, lemma_cell_index, lemma_fill_done,
    lemma_fill_next, lemma_transpose_shape, transpose, well_shaped, width_of,
};
use crate::seam::{adjacent, crosses, offsets, Axis, Seam, SeamModel};

verus! {

/// Index of the smallest of the first `n` entries of `s`; of several smallest
/// entries, the one with the lowest index.
pub open spec fn leftmost_min(s: Seq<nat>, n: int) -> int
    decreases n,
{
    if n <= 1 {
        0
    } else {
        let m = leftmost_min(s, n - 1);
        if s[n - 1] < s[m] {
            n - 1
        } else {
            m
        }
    }
}

/// Among the columns `c - 1`, `c` and `c + 1` that exist in the row of
/// cumulative costs `prev`, the one of least cost; of several such columns,
/// the leftmost.
pub open spec fn best_predecessor(prev: Seq<nat>, c: int) -> int {
    let l = if c > 0 && prev[c - 1] <= prev[c] {
        c - 1
    } else {
        c
    };
    if c + 1 < prev.len() && prev[c + 1] < prev[l] {
        c + 1
    } else {
        l
    }
}

/// Row `r` of the cumulative costs of `e`: the least total energy of any
/// connected path that starts in the top row and ends in each column of row
/// `r`.
pub open spec fn cost_row(e: Seq<Seq<nat>>, r: int) -> Seq<nat>
    decreases r,
{
    if r <= 0 {
        e[0]
    } else {
        let prev = cost_row(e, r - 1);
        Seq::new(e[r].len(), |c: int| e[r][c] + prev[best_predecessor(prev, c)])
    }
}

/// The cumulative costs of `e`, in the shape of `e`.
pub open spec fn cost_grid(e: Seq<Seq<nat>>) -> Seq<Seq<nat>> {
    Seq::new(e.len(), |r: int| cost_row(e, r))
}

/// The column in row `r` of the path traced back through the cumulative costs
/// `m`: in the last row the leftmost cheapest column, in every other row the
/// best predecessor of the column chosen in the row below.
pub open spec fn seam_column(m: Seq<Seq<nat>>, r: int) -> int
    decreases m.len() - r,
{
    if r >= m.len() - 1 {
        leftmost_min(m[m.len() - 1], width_of(m))
    } else {
        best_predecessor(m[r], seam_column(m, r + 1))
    }
}

/// The path traced back through the cumulative costs `m`, top to bottom.
pub open spec fn trace(m: Seq<Seq<nat>>) -> Seq<int> {
    Seq::new(m.len(), |r: int| seam_column(m, r))
}

/// The vertical seam of least total energy through `e`, ties resolved to the
/// left.
pub open spec fn vertical_seam(e: Seq<Seq<nat>>) -> Seq<int> {
    trace(cost_grid(e))
}

/// The horizontal seam of least total energy through `e`, ties resolved to
/// the top: the vertical seam of the transposed grid.
pub open spec fn horizontal_seam(e: Seq<Seq<nat>>) -> Seq<int> {
    vertical_seam(transpose(e))
}

/// Total energy that `p` collects in the first `n` rows of `e`.
pub open spec fn path_energy(e: Seq<Seq<nat>>, p: Seq<int>, n: int) -> nat
    decreases n,
{
    if n <= 0 {
        0
    } else {
        path_energy(e, p, n - 1) + e[n - 1][p[n - 1]]
    }
}

/// `leftmost_min` names an entry that no entry undercuts and that every entry
/// to its left exceeds.
pub proof fn lemma_leftmost_min(s: Seq<nat>, n: int)
    requires
        1 <= n <= s.len(),
    ensures
        0 <= leftmost_min(s, n) < n,
        forall|j: int| 0 <= j < n ==> s[leftmost_min(s, n)] <= #[trigger] s[j],
        forall|j: int| 0 <= j < leftmost_min(s, n) ==> s[leftmost_min(s, n)] < #[trigger] s[j],
    decreases n,
{
    if n > 1 {
        lemma_leftmost_min(s, n - 1);
    }
}

/// `best_predecessor` names an existing neighbour column of least cost, the
/// leftmost of those.
pub proof fn lemma_best_predecessor(prev: Seq<nat>, c: int)
    requires
        0 <= c < prev.len(),
    ensures
        0 <= best_predecessor(prev, c) < prev.len(),
        adjacent(best_predecessor(prev, c), c),
        forall|j: int|
            0 <= j < prev.len() && adjacent(j, c) ==> prev[best_predecessor(prev, c)]
                <= #[trigger] prev[j],
        forall|j: int|
            0 <= j < best_predecessor(prev, c) && adjacent(j, c) ==> prev[best_predecessor(prev, c)]
                < #[trigger] prev[j],
{
}

/// The cumulative costs have the shape of the energies.
pub proof fn lemma_cost_grid_shape(e: Seq<Seq<nat>>)
    requires
        well_shaped(e),
    ensures
        well_shaped(cost_grid(e)),
        width_of(cost_grid(e)) == width_of(e),
        height_of(cost_grid(e)) == height_of(e),
{
}

/// A cumulative cost in row `r` is the sum of `r + 1` energies, each of which
/// fits in 32 bits.
pub proof fn lemma_cost_bound(e: Seq<Seq<nat>>, r: int, c: int)
    requires
        well_shaped(e),
        bounded_energies(e),
        0 <= r < height_of(e),
        0 <= c < width_of(e),
    ensures
        cost_row(e, r).len() == width_of(e),
        cost_row(e, r)[c] <= (r + 1) * u32::MAX,
    decreases r,
{
    if r > 0 {
        let prev = cost_row(e, r - 1);
        lemma_best_predecessor(prev, c);
        lemma_cost_bound(e, r - 1, best_predecessor(prev, c));
        assert((r + 1) * u32::MAX == r * u32::MAX + u32::MAX) by (nonlinear_arith);
    }
}

/// The traced path is a seam: one in-range column per row, consecutive
/// columns at most one step apart.
pub proof fn lemma_trace_crosses(m: Seq<Seq<nat>>)
    requires
        well_shaped(m),
    ensures
        crosses(trace(m), width_of(m), height_of(m)),
{
    let w = width_of(m);
    let h = height_of(m);
    let p = trace(m);
    assert forall|i: int| 0 <= i < h implies 0 <= #[trigger] p[i] < w by {
        lemma_seam_column(m, i);
    }
    assert forall|i: int| 0 <= i < h - 1 implies adjacent(#[trigger] p[i], p[i + 1]) by {
        lemma_seam_column(m, i);
        lemma_seam_column(m, i + 1);
    }
}

/// Each traced column is in range, and adjacent to the column traced in the
/// row below.
pub proof fn lemma_seam_column(m: Seq<Seq<nat>>, r: int)
    requires
        well_shaped(m),
        0 <= r < height_of(m),
    ensures
        0 <= seam_column(m, r) < width_of(m),
        r < height_of(m) - 1 ==> adjacent(seam_column(m, r), seam_column(m, r + 1)),
    decreases height_of(m) - r,
{
    if r >= m.len() - 1 {
        lemma_leftmost_min(m[m.len() - 1], width_of(m));
    } else {
        lemma_seam_column(m, r + 1);
        lemma_best_predecessor(m[r], seam_column(m, r + 1));
    }
}

/// No seam that reaches column `p[r]` in row `r` collects less energy on the
/// way than the cumulative cost recorded there.
pub proof fn lemma_cost_is_least(e: Seq<Seq<nat>>, p: Seq<int>, r: int)
    requires
        well_shaped(e),
        crosses(p, width_of(e), height_of(e)),
        0 <= r < height_of(e),
    ensures
        cost_row(e, r)[p[r]] <= path_energy(e, p, r + 1),
    decreases r,
{
    if r > 0 {
        let prev = cost_row(e, r - 1);
        lemma_cost_is_least(e, p, r - 1);
        lemma_best_predecessor(prev, p[r]);
    }
}

/// The energy that the least seam collects down to row `r` is exactly the
/// cumulative cost recorded where it passes.
pub proof fn lemma_seam_attains_cost(e: Seq<Seq<nat>>, r: int)
    requires
        well_shaped(e),
        0 <= r < height_of(e),
    ensures
        cost_row(e, r)[vertical_seam(e)[r]] == path_energy(e, vertical_seam(e), r + 1),
    decreases r,
{
    let m = cost_grid(e);
    let s = vertical_seam(e);
    lemma_cost_grid_shape(e);
    lemma_seam_column(m, r);
    if r > 0 {
        lemma_seam_attains_cost(e, r - 1);
        lemma_seam_column(m, r - 1);
    } else {
        assert(path_energy(e, s, 1) == path_energy(e, s, 0) + e[0][s[0]]);
    }
}

/// The seam found by dynamic programming is a seam of least total energy: no
/// other seam through the same grid collects less.
pub proof fn lemma_vertical_seam_is_least(e: Seq<Seq<nat>>, p: Seq<int>)
    requires
        well_shaped(e),
        crosses(p, width_of(e), height_of(e)),
    ensures
        crosses(vertical_seam(e), width_of(e), height_of(e)),
        path_energy(e, vertical_seam(e), height_of(e)) <= path_energy(e, p, height_of(e)),
{
    let h = height_of(e);
    let m = cost_grid(e);
    lemma_cost_grid_shape(e);
    lemma_trace_crosses(m);
    lemma_seam_attains_cost(e, h - 1);
    lemma_cost_is_least(e, p, h - 1);
    lemma_leftmost_min(m[h - 1], width_of(m));
}

/// The least vertical seam is a seam: one in-range column per row,
/// consecutive columns at most one step apart.
pub proof fn lemma_vertical_seam_crosses(e: Seq<Seq<nat>>)
    requires
        well_shaped(e),
    ensures
        crosses(vertical_seam(e), width_of(e), height_of(e)),
{
    lemma_cost_grid_shape(e);
    lemma_trace_crosses(cost_grid(e));
}

/// The least horizontal seam is a seam: one in-range row per column,
/// consecutive rows at most one step apart.
pub proof fn lemma_horizontal_seam_crosses(e: Seq<Seq<nat>>)
    requires
        well_shaped(e),
    ensures
        crosses(horizontal_seam(e), height_of(e), width_of(e)),
{
    lemma_transpose_shape(e);
    lemma_vertical_seam_crosses(transpose(e));
}

/// In a grid of a single column the least seam runs straight down it.
pub proof fn lemma_single_column_seam(e: Seq<Seq<nat>>, r: int)
    requires
        well_shaped(e),
        width_of(e) == 1,
        0 <= r < height_of(e),
    ensures
        vertical_seam(e)[r] == 0,
{
    lemma_vertical_seam_crosses(e);
}

/// The horizontal seam found by dynamic programming is one of least total
/// energy, the energy being collected column by column.
pub proof fn lemma_horizontal_seam_is_least(e: Seq<Seq<nat>>, p: Seq<int>)
    requires
        well_shaped(e),
        crosses(p, height_of(e), width_of(e)),
    ensures
        path_energy(transpose(e), horizontal_seam(e), width_of(e)) <= path_energy(
            transpose(e),
            p,
            width_of(e),
        ),
{
    lemma_transpose_shape(e);
    lemma_vertical_seam_is_least(transpose(e), p);
}

/// The stored cumulative costs read as natural numbers.
pub open spec fn totals(costs: Seq<u128>) -> Seq<nat> {
    Seq::new(costs.len(), |i: int| costs[i] as nat)
}

/// The cumulative minimal energies of an energy field, stored row-major.
///
/// The entry in row `r`, column `c` is the least total energy of any connected
/// path from the top row down to `(r, c)`.
#[derive(Debug, PartialEq, Eq)]
pub struct CostMatrix {
    width: usize,
    height: usize,
    costs: Vec<u128>,
}

impl View for CostMatrix {
    type V = Seq<Seq<nat>>;

    closed spec fn view(&self) -> Seq<Seq<nat>> {
        from_flat(totals(self.costs@), self.width as int, self.height as int)
    }
}

/// Picks, among the columns next to `c` in the row of `costs` that starts at
/// `base`, the cheapest, leftmost first.
fn predecessor(
    costs: &Vec<u128>,
    base: usize,
    w: usize,
    c: usize,
    Ghost(prev): Ghost<Seq<nat>>,
) -> (b: usize)
    requires
        c < w,
        base + w <= costs.len(),
        prev.len() == w,
        forall|i: int| 0 <= i < w ==> costs[base + i] == #[trigger] prev[i],
    ensures
        b == best_predecessor(prev, c as int),
        b < w,
{
    let mut best = c;
    if c > 0 {
        if costs[base + (c - 1)] <= costs[base + c] {
            best = c - 1;
        }
    }
    if c + 1 < w {
        if costs[base + (c + 1)] < costs[base + best] {
            best = c + 1;
        }
    }
    best
}

impl CostMatrix {
    #[verifier::type_invariant]
    closed spec fn inv(&self) -> bool {
        &&& self.width >= 1
        &&& self.height >= 1
        &&& self.costs.len() == self.width * self.height
    }

    /// Number of columns.
    pub fn width(&self) -> (w: usize)
        ensures
            w == width_of(self@),
            w >= 1,
            well_shaped(self@),
    {
        proof {
            use_type_invariant(self);
        }
        self.width
    }

    /// Number of rows.
    pub fn height(&self) -> (h: usize)
        ensures
            h == height_of(self@),
            h >= 1,
            well_shaped(self@),
    {
        proof {
            use_type_invariant(self);
        }
        self.height
    }

    /// The cumulative cost in row `row`, column `col`.
    pub fn get(&self, row: usize, col: usize) -> (cost: u128)
        requires
            row < height_of(self@),
            col < width_of(self@),
        ensures
            cost == self@[row as int][col as int],
    {
        proof {
            use_type_invariant(self);
            lemma_cell_index(self.width as int, self.height as int, row as int, col as int);
        }
        self.costs[row * self.width + col]
    }

    /// Runs the forward pass of the dynamic program over `energy`: the top
    /// row is copied, and every later cell adds its own energy to the least
    /// cumulative cost among the up to three cells above it.
    pub fn compute(energy: &EnergyField) -> (matrix: CostMatrix)
        ensures
            matrix@ == cost_grid(energy@),
    {
        let w = energy.width();
        let h = energy.height();
        let ghost e = energy@;
        let ghost goal = cost_grid(e);
        proof {
            lemma_cost_grid_shape(e);
        }
        let mut costs: Vec<u128> = Vec::new();
        let mut r: usize = 0;
        let mut c: usize = 0;
        while r < h
            invariant
                r <= h,
                c < w,
                r == h ==> c == 0,
                e == energy@,
                w == width_of(e),
                h == height_of(e),
                well_shaped(e),
                bounded_energies(e),
                goal == cost_grid(e),
                is_grid(goal, w as int, h as int),
                filled_up_to(totals(costs@), goal, w as int, r as int, c as int),
            decreases h - r, w - c,
        {
            let own = energy.get(r, c) as u128;
            let cost = if r == 0 {
                own
            } else {
                let ghost prev = cost_row(e, r - 1);
                proof {
                    lemma_cell_index(w as int, r as int, r - 1, 0);
                    assert(w * r == r * w) by (nonlinear_arith);
                    assert(costs.len() == r * w + c);
                    assert forall|i: int| 0 <= i < w implies costs[(r - 1) * w + i]
                        == #[trigger] prev[i] by {
                        assert(totals(costs@)[cell_index(w as int, r - 1, i)] == goal[r - 1][i]);
                    }
                }
                let base = (r - 1) * w;
                let b = predecessor(&costs, base, w, c, Ghost(prev));
                proof {
                    lemma_cost_bound(e, r - 1, b as int);
                    assert(r * u32::MAX + u32::MAX <= u128::MAX) by (nonlinear_arith)
                        requires
                            r <= u64::MAX,
                    ;
                }
                own + costs[base + b]
            };
            proof {
                lemma_fill_next(totals(costs@), cost as nat, goal, w as int, r as int, c as int);
                assert(totals(costs@.push(cost)) =~= totals(costs@).push(cost as nat));
            }
            costs.push(cost);
            c += 1;
            if c == w {
                c = 0;
                r += 1;
            }
        }
        proof {
            lemma_fill_done(totals(costs@), goal, w as int, h as int);
        }
        CostMatrix { width: w, height: h, costs }
    }

    /// Runs the backward pass: starts at the leftmost cheapest cell of the
    /// bottom row and climbs, row by row, to the leftmost cheapest of the up
    /// to three cells above.
    pub fn backtrack(&self) -> (seam: Seam)
        ensures
            seam@ == (SeamModel { axis: Axis::Vertical, path: trace(self@) }),
            crosses(seam@.path, width_of(self@), height_of(self@)),
    {
        proof {
            use_type_invariant(self);
        }
        let w = self.width;
        let h = self.height;
        let ghost m = self@;
        proof {
            lemma_cell_index(w as int, h as int, h - 1, 0);
            lemma_trace_crosses(m);
        }
        let last = (h - 1) * w;
        let mut col: usize = 0;
        let mut j: usize = 1;
        while j < w
            invariant
                1 <= j <= w,
                col < j,
                w == self.width,
                h == self.height,
                h >= 1,
                self.costs.len() == w * h,
                m == self@,
                last == (h - 1) * w,
                last + w <= self.costs.len(),
                col == leftmost_min(m[h - 1], j as int),
            decreases w - j,
        {
            proof {
                assert(self.costs[last + j] == m[h - 1][j as int]);
                assert(self.costs[last + col] == m[h - 1][col as int]);
            }
            if self.costs[last + j] < self.costs[last + col] {
                col = j;
            }
            j += 1;
        }
        let mut path: Vec<usize> = vec![0usize; h];
        let mut r: usize = h - 1;
        path.set(r, col);
        while r > 0
            invariant
                r < h,
                col < w,
                w == self.width,
                h == self.height,
                w >= 1,
                self.costs.len() == w * h,
                m == self@,
                path.len() == h,
                col == seam_column(m, r as int),
                forall|i: int| r <= i < h ==> path[i] == seam_column(m, i),
            decreases r,
        {
            let ghost prev = m[r - 1];
            proof {
                lemma_cell_index(w as int, h as int, r - 1, 0);
                assert forall|i: int| 0 <= i < w implies self.costs[(r - 1) * w + i]
                    == #[trigger] prev[i] by {
                    assert(cell_index(w as int, r - 1, i) == (r - 1) * w + i);
                }
            }
            col = predecessor(&self.costs, (r - 1) * w, w, col, Ghost(prev));
            r -= 1;
            path.set(r, col);
        }
        proof {
            assert(offsets(path@) =~= trace(m));
        }
        Seam::from_connected(Axis::Vertical, path)
    }
}

/// `s` is the seam that `find_vertical_seam` selects in a field of energies
/// `e`.
pub open spec fn selected_vertical(e: Seq<Seq<nat>>, s: SeamModel) -> bool {
    s == (SeamModel { axis: Axis::Vertical, path: vertical_seam(e) })
}

/// `s` is the seam that `find_horizontal_seam` selects in a field of energies
/// `e`.
pub open spec fn selected_horizontal(e: Seq<Seq<nat>>, s: SeamModel) -> bool {
    s == (SeamModel { axis: Axis::Horizontal, path: horizontal_seam(e) })
}

/// Seam selection is deterministic: whenever two searches run on fields of
/// the same energies, they select the same seam.
pub proof fn lemma_selection_is_deterministic(
    first: EnergyField,
    second: EnergyField,
    a: Seam,
    b: Seam,
)
    requires
        first@ == second@,
        selected_vertical(first@, a@) && selected_vertical(second@, b@) || selected_horizontal(
            first@,
            a@,
        ) && selected_horizontal(second@, b@),
    ensures
        a@ == b@,
{
}

/// Finds the vertical seam of least total energy, ties resolved to the left.
///
/// The seam holds one column per row of `energy`, every column inside the
/// field and at most one step away from the column in the next row. No other
/// such path collects less energy.
pub fn find_vertical_seam(energy: &EnergyField) -> (seam: Seam)
    ensures
        selected_vertical(energy@, seam@),
        crosses(seam@.path, width_of(energy@), height_of(energy@)),
        forall|p: Seq<int>|
            crosses(p, width_of(energy@), height_of(energy@)) ==> path_energy(
                energy@,
                seam@.path,
                height_of(energy@),
            ) <= #[trigger] path_energy(energy@, p, height_of(energy@)),
{
    let w = energy.width();
    proof {
        lemma_cost_grid_shape(energy@);
        assert forall|p: Seq<int>|
            crosses(p, width_of(energy@), height_of(energy@)) implies path_energy(
            energy@,
            vertical_seam(energy@),
            height_of(energy@),
        ) <= #[trigger] path_energy(energy@, p, height_of(energy@)) by {
            lemma_vertical_seam_is_least(energy@, p);
        }
    }
    let matrix = CostMatrix::compute(energy);
    matrix.backtrack()
}

/// Finds the horizontal seam of least total energy, ties resolved to the top.
///
/// The seam holds one row per column of `energy`, every row inside the field
/// and at most one step away from the row in the next column. It is the
/// vertical seam of the transposed field, so no other such path collects less
/// energy.
pub fn find_horizontal_seam(energy: &EnergyField) -> (seam: Seam)
    ensures
        selected_horizontal(energy@, seam@),
        crosses(seam@.path, height_of(energy@), width_of(energy@)),
        forall|p: Seq<int>|
            crosses(p, height_of(energy@), width_of(energy@)) ==> path_energy(
                transpose(energy@),
                seam@.path,
                width_of(energy@),
            ) <= #[trigger] path_energy(transpose(energy@), p, width_of(energy@)),
{
    let w = energy.width();
    proof {
        lemma_transpose_shape(energy@);
    }
    let turned = energy.transposed();
    find_vertical_seam(&turned).transposed()
}

} // verus!

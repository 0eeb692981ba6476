//! Rectangular grids as sequences of rows.
//!
//! Every raster in this crate (pixels, energies, cumulative costs) is modelled
//! as a `Seq<Seq<T>>`: the outer sequence holds the rows from top to bottom,
//! each inner sequence holds one row from left to right.

use vstd::prelude::*;

verus! {

/// Number of rows of a grid.
pub open spec fn height_of<T>(g: Seq<Seq<T>>) -> int {
    g.len() as int
}

/// Number of columns of a grid, read off its first row.
pub open spec fn width_of<T>(g: Seq<Seq<T>>) -> int {
    if g.len() > 0 {
        g[0].len() as int
    } else {
        0
    }
}

/// `g` has exactly `h` rows of exactly `w` cells each.
pub open spec fn is_grid<T>(g: Seq<Seq<T>>, w: int, h: int) -> bool {
    &&& g.len() == h
    &&& forall|r: int| 0 <= r < h ==> (#[trigger] g[r]).len() == w
}

/// `g` is a non-empty rectangle: at least one row, at least one column, and
/// all rows of the same length.
pub open spec fn well_shaped<T>(g: Seq<Seq<T>>) -> bool {
    &&& g.len() >= 1
    &&& g[0].len() >= 1
    &&& is_grid(g, width_of(g), height_of(g))
}

/// Row-major position of cell `(r, c)` in a buffer whose rows are `w` wide.
pub open spec fn cell_index(w: int, r: int, c: int) -> int {
    r * w + c
}

/// The grid of width `w` and height `h` stored row-major in `cells`.
pub open spec fn from_flat<T>(cells: Seq<T>, w: int, h: int) -> Seq<Seq<T>> {
    Seq::new(h as nat, |r: int| Seq::new(w as nat, |c: int| cells[cell_index(w, r, c)]))
}

/// `cells` holds, row-major, exactly the cells of `goal` that come before
/// `(r, c)` in reading order, for rows `w` wide.
pub open spec fn filled_up_to<T>(cells: Seq<T>, goal: Seq<Seq<T>>, w: int, r: int, c: int) -> bool {
    &&& cells.len() == r * w + c
    &&& forall|rr: int, cc: int|
        0 <= cc < w && (0 <= rr < r || (rr == r && cc < c)) ==> cells[#[trigger] cell_index(
            w,
            rr,
            cc,
        )] == goal[rr][cc]
}

/// The cells of a grid in reading order: row by row, each from left to right.
pub open spec fn row_major<T>(g: Seq<Seq<T>>) -> Seq<T> {
    Seq::new(
        (width_of(g) * height_of(g)) as nat,
        |i: int| g[i / width_of(g)][i % width_of(g)],
    )
}

/// The grid mirrored along its main diagonal: rows become columns.
pub open spec fn transpose<T>(g: Seq<Seq<T>>) -> Seq<Seq<T>> {
    Seq::new(
        width_of(g) as nat,
        |c: int| Seq::new(height_of(g) as nat, |r: int| g[r][c]),
    )
}

/// The row-major position of cell `(r, c)` lies inside a `w * h` buffer, and
/// so does the whole of row `r`.
pub proof fn lemma_cell_index(w: int, h: int, r: int, c: int)
    requires
        0 <= r < h,
        0 <= c < w,
    ensures
        0 <= r * w,
        r * w + c < w * h,
        r * w + w <= w * h,
        0 <= cell_index(w, r, c) < w * h,
{
    assert(0 <= r * w) by (nonlinear_arith)
        requires
            0 <= r,
            0 <= w,
    ;
    assert(r * w + w <= w * h) by (nonlinear_arith)
        requires
            r + 1 <= h,
            0 <= w,
    ;
}

/// Appending the cell at `(r, c)` extends a row-major prefix by one position;
/// at the end of a row the prefix continues at the start of the next.
pub proof fn lemma_fill_next<T>(cells: Seq<T>, x: T, goal: Seq<Seq<T>>, w: int, r: int, c: int)
    requires
        0 <= r,
        0 <= c < w,
        filled_up_to(cells, goal, w, r, c),
        x == goal[r][c],
    ensures
        filled_up_to(cells.push(x), goal, w, r, c + 1),
        c + 1 == w ==> filled_up_to(cells.push(x), goal, w, r + 1, 0),
{
    let next = cells.push(x);
    assert forall|rr: int, cc: int|
        0 <= cc < w && (0 <= rr < r || (rr == r && cc < c + 1)) implies next[#[trigger] cell_index(
        w,
        rr,
        cc,
    )] == goal[rr][cc] by {
        if rr < r {
            lemma_cell_index(w, r, rr, cc);
            assert(w * r == r * w) by (nonlinear_arith);
        }
    }
    assert((r + 1) * w == r * w + w) by (nonlinear_arith);
}

/// A completely filled row-major buffer reads back as the goal grid.
pub proof fn lemma_fill_done<T>(cells: Seq<T>, goal: Seq<Seq<T>>, w: int, h: int)
    requires
        0 <= w,
        0 <= h,
        is_grid(goal, w, h),
        filled_up_to(cells, goal, w, h, 0),
    ensures
        from_flat(cells, w, h) == goal,
{
    let got = from_flat(cells, w, h);
    assert forall|r: int| 0 <= r < h implies got[r] == goal[r] by {
        assert(got[r] =~= goal[r]);
    }
}

/// Reading a grid back in reading order gives the buffer it was made from.
pub proof fn lemma_row_major_from_flat<T>(cells: Seq<T>, w: int, h: int)
    requires
        w >= 1,
        h >= 1,
        cells.len() == w * h,
    ensures
        row_major(from_flat(cells, w, h)) == cells,
{
    let g = from_flat(cells, w, h);
    let back = row_major(g);
    assert forall|i: int| 0 <= i < cells.len() implies back[i] == cells[i] by {
        vstd::arithmetic::div_mod::lemma_fundamental_div_mod(i, w);
        vstd::arithmetic::div_mod::lemma_mod_bound(i, w);
        vstd::arithmetic::div_mod::lemma_multiply_divide_lt(i, w, h);
        vstd::arithmetic::div_mod::lemma_div_pos_is_pos(i, w);
        assert(w * (i / w) == (i / w) * w) by (nonlinear_arith);
    }
}

/// A transposed grid has the dimensions swapped.
pub proof fn lemma_transpose_shape<T>(g: Seq<Seq<T>>)
    requires
        well_shaped(g),
    ensures
        well_shaped(transpose(g)),
        width_of(transpose(g)) == height_of(g),
        height_of(transpose(g)) == width_of(g),
{
}

/// Transposing twice gives the grid back.
pub proof fn lemma_transpose_involution<T>(g: Seq<Seq<T>>)
    requires
        well_shaped(g),
    ensures
        transpose(transpose(g)) == g,
{
    let t = transpose(transpose(g));
    assert forall|r: int| 0 <= r < g.len() implies t[r] == g[r] by {
        assert(t[r] =~= g[r]);
    }
}

/// Transposes a row-major buffer of `h` rows and `w` columns into the
/// row-major buffer of its `w` columns.
pub fn transpose_flat<T: Copy>(cells: &Vec<T>, w: usize, h: usize) -> (out: Vec<T>)
    requires
        w >= 1,
        h >= 1,
        cells.len() == w * h,
    ensures
        out.len() == w * h,
        from_flat(out@, h as int, w as int) == transpose(from_flat(cells@, w as int, h as int)),
{
    let ghost goal = transpose(from_flat(cells@, w as int, h as int));
    let mut out: Vec<T> = Vec::new();
    let mut c: usize = 0;
    let mut r: usize = 0;
    while c < w
        invariant
            c <= w,
            r < h,
            c == w ==> r == 0,
            cells.len() == w * h,
            goal == transpose(from_flat(cells@, w as int, h as int)),
            filled_up_to(out@, goal, h as int, c as int, r as int),
        decreases w - c, h - r,
    {
        proof {
            lemma_cell_index(w as int, h as int, r as int, c as int);
        }
        let x = cells[r * w + c];
        proof {
            lemma_fill_next(out@, x, goal, h as int, c as int, r as int);
        }
        out.push(x);
        r += 1;
        if r == h {
            r = 0;
            c += 1;
        }
    }
    proof {
        lemma_fill_done(out@, goal, h as int, w as int);
    }
    out
}

} // verus!

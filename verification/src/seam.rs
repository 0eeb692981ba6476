//! Seams: connected, one-pixel-wide paths across an image.

use vstd::prelude::*;

verus! {

/// The direction in which a seam crosses the image.
///
/// A vertical seam runs from the top row to the bottom row and holds one
/// column per row; removing it makes the image one column narrower. A
/// horizontal seam runs from the left column to the right column and holds
/// one row per column.
#[derive(Clone, Copy, Debug, PartialEq, Eq, Structural)]
pub enum Axis {
    Vertical,
    Horizontal,
}

/// Two consecutive path entries are at most one step apart.
pub open spec fn adjacent(a: int, b: int) -> bool {
    a - b <= 1 && b - a <= 1
}

/// Every entry of `p` is at most one step away from the next.
pub open spec fn connected(p: Seq<int>) -> bool {
    forall|i: int| 0 <= i < p.len() - 1 ==> adjacent(#[trigger] p[i], p[i + 1])
}

/// Every entry of `p` lies in `0..bound`.
pub open spec fn within(p: Seq<int>, bound: int) -> bool {
    forall|i: int| 0 <= i < p.len() ==> 0 <= #[trigger] p[i] < bound
}

/// `p` is a top-to-bottom seam of a grid `w` wide and `h` high: one in-range
/// column per row, consecutive columns at most one step apart.
pub open spec fn crosses(p: Seq<int>, w: int, h: int) -> bool {
    &&& p.len() == h
    &&& within(p, w)
    &&& connected(p)
}

/// What a seam is: its direction and, in crossing order, the column (for a
/// vertical seam) or row (for a horizontal seam) that it occupies at each
/// step.
pub struct SeamModel {
    pub axis: Axis,
    pub path: Seq<int>,
}

/// The stored path entries read as integers.
pub open spec fn offsets(path: Seq<usize>) -> Seq<int> {
    Seq::new(path.len(), |i: int| path[i] as int)
}

/// The seam `s` can be applied to a grid `w` wide and `h` high: it has one
/// entry per row (vertical) or per column (horizontal), each inside the grid.
pub open spec fn seam_fits(s: SeamModel, w: int, h: int) -> bool {
    match s.axis {
        Axis::Vertical => s.path.len() == h && within(s.path, w),
        Axis::Horizontal => s.path.len() == w && within(s.path, h),
    }
}

/// A connected, one-pixel-wide path across an image.
///
/// Consecutive entries of a seam's path never differ by more than one.
#[derive(Debug, PartialEq, Eq)]
pub struct Seam {
    axis: Axis,
    path: Vec<usize>,
}

impl View for Seam {
    type V = SeamModel;

    closed spec fn view(&self) -> SeamModel {
        SeamModel { axis: self.axis, path: offsets(self.path@) }
    }
}

impl Clone for Seam {
    fn clone(&self) -> (copy: Seam)
        ensures
            copy@ == self@,
    {
        proof {
            use_type_invariant(self);
        }
        let path = self.path.clone();
        Seam { axis: self.axis, path }
    }
}

impl Seam {
    #[verifier::type_invariant]
    closed spec fn inv(&self) -> bool {
        connected(offsets(self.path@))
    }

    /// Makes a seam from its direction and path.
    ///
    /// Succeeds exactly when consecutive entries of `path` are at most one
    /// step apart.
    pub fn new(axis: Axis, path: Vec<usize>) -> (made: Option<Seam>)
        ensures
            made.is_some() <==> connected(offsets(path@)),
            made matches Some(s) ==> s@ == (SeamModel { axis, path: offsets(path@) }),
    {
        let ghost p = offsets(path@);
        let mut i: usize = 1;
        while i < path.len()
            invariant
                1 <= i,
                p == offsets(path@),
                forall|k: int|
                    0 <= k < i - 1 && k < p.len() - 1 ==> adjacent(#[trigger] p[k], p[k + 1]),
            decreases path.len() - i,
        {
            let a = path[i - 1];
            let b = path[i];
            let close = if a <= b {
                b - a <= 1
            } else {
                a - b <= 1
            };
            if !close {
                proof {
                    assert(!adjacent(p[i - 1], p[i - 1 + 1]));
                }
                return None;
            }
            i += 1;
        }
        Some(Seam { axis, path })
    }

    /// Makes a seam from a path that is known to be connected.
    pub(crate) fn from_connected(axis: Axis, path: Vec<usize>) -> (seam: Seam)
        requires
            connected(offsets(path@)),
        ensures
            seam@ == (SeamModel { axis, path: offsets(path@) }),
    {
        Seam { axis, path }
    }

    /// The same path read as a seam of the transposed image: a vertical seam
    /// becomes a horizontal one and the other way round.
    pub fn transposed(self) -> (turned: Seam)
        ensures
            turned@.path == self@.path,
            turned@.axis == match self@.axis {
                Axis::Vertical => Axis::Horizontal,
                Axis::Horizontal => Axis::Vertical,
            },
    {
        proof {
            use_type_invariant(&self);
        }
        let axis = match self.axis {
            Axis::Vertical => Axis::Horizontal,
            Axis::Horizontal => Axis::Vertical,
        };
        Seam { axis, path: self.path }
    }

    /// The direction in which the seam crosses the image.
    pub fn axis(&self) -> (a: Axis)
        ensures
            a == self@.axis,
    {
        self.axis
    }

    /// The seam's entries in crossing order.
    pub fn path(&self) -> (p: &Vec<usize>)
        ensures
            offsets(p@) == self@.path,
            connected(self@.path),
    {
        proof {
            use_type_invariant(self);
        }
        &self.path
    }

    /// Whether the seam can be applied to an image `width` wide and `height`
    /// high.
    pub fn fits(&self, width: usize, height: usize) -> (ok: bool)
        ensures
            ok == seam_fits(self@, width as int, height as int),
    {
        let (steps, bound) = match self.axis {
            Axis::Vertical => (height, width),
            Axis::Horizontal => (width, height),
        };
        if self.path.len() != steps {
            return false;
        }
        let ghost p = offsets(self.path@);
        let mut i: usize = 0;
        while i < self.path.len()
            invariant
                i <= self.path.len(),
                p == offsets(self.path@),
                self.path.len() == steps,
                (steps, bound) == match self.axis {
                    Axis::Vertical => (height, width),
                    Axis::Horizontal => (width, height),
                },
                forall|k: int| 0 <= k < i ==> 0 <= #[trigger] p[k] < bound,
            decreases self.path.len() - i,
        {
            if self.path[i] >= bound {
                proof {
                    assert(!(p[i as int] < bound));
                }
                return false;
            }
            i += 1;
        }
        true
    }
}

} // verus!

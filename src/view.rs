//! The parts of the map view that are not geometry: which two coordinates a
//! projection keeps, and which star is hovered and which is selected.

use vstd::prelude::*;

verus! {

/// One of the three orthographic projections of the map.
#[derive(Clone, Copy, Debug, PartialEq, Eq, Structural)]
pub enum Projection {
    XY,
    XZ,
    YZ,
}

/// The coordinates (as indices into x, y, z) that a projection keeps, in
/// screen order; the third is dropped.
pub open spec fn axes_of(p: Projection) -> (usize, usize) {
    match p {
        Projection::XY => (0, 1),
        Projection::XZ => (0, 2),
        Projection::YZ => (1, 2),
    }
}

impl Projection {
    /// The two coordinates this projection keeps, as indices into x, y, z.
    pub fn axes(&self) -> (r: (usize, usize))
        ensures
            r == axes_of(*self),
            r.0 < r.1 < 3,
    {
        match self {
            Projection::XY => (0, 1),
            Projection::XZ => (0, 2),
            Projection::YZ => (1, 2),
        }
    }
}

/// The last index whose hit test passed, if any.
pub open spec fn last_hit(hits: Seq<bool>) -> Option<usize>
    decreases hits.len(),
{
    if hits.len() == 0 {
        None
    } else if hits.last() {
        Some((hits.len() - 1) as usize)
    } else {
        last_hit(hits.drop_last())
    }
}

/// The hovered and the selected star, by node index; the two are
/// independent.
#[derive(Clone, Copy, Debug, PartialEq, Eq, Structural)]
pub struct Selection {
    pub hovered: Option<usize>,
    pub selected: Option<usize>,
}

impl Selection {
    /// Nothing hovered, nothing selected.
    pub fn new() -> (r: Selection)
        ensures
            r.hovered is None,
            r.selected is None,
    {
        Selection { hovered: None, selected: None }
    }

    /// Takes the hover test of one frame: `hits[i]` tells whether node `i`
    /// is on screen and under the pointer. The last such node is hovered;
    /// with none, nothing is. The selection stays.
    pub fn update_hover(&mut self, hits: &Vec<bool>)
        ensures
            final(self).hovered == last_hit(hits@),
            final(self).selected == old(self).selected,
    {
        let mut i: usize = hits.len();
        assert(hits@.subrange(0, i as int) =~= hits@);
        while i > 0
            invariant
                i <= hits@.len(),
                *self == *old(self),
                last_hit(hits@) == last_hit(hits@.subrange(0, i as int)),
            decreases i,
        {
            let ghost pre = hits@.subrange(0, i as int);
            assert(pre.drop_last() =~= hits@.subrange(0, i - 1));
            i = i - 1;
            if hits[i] {
                self.hovered = Some(i);
                return;
            }
        }
        self.hovered = None;
    }

    /// A click: the hovered star becomes the selection, or the selection is
    /// cleared when nothing is hovered.
    pub fn click(&mut self)
        ensures
            final(self).selected == old(self).hovered,
            final(self).hovered == old(self).hovered,
    {
        self.selected = self.hovered;
    }

    /// Selects star `i` directly (from a search result or a neighbour list).
    pub fn select(&mut self, i: usize)
        ensures
            final(self).selected == Some(i),
            final(self).hovered == old(self).hovered,
    {
        self.selected = Some(i);
    }
}

} // verus!

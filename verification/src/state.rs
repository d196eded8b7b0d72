//! The state that generation, flipping and painting share.

use crate::canvas::PixelBuffer;
use crate::hexagon::{HexagonColor, HEX_INSIDE, HEX_OUTSIDE};
use crate::key::Key;
use crate::lattice::{KeySet, Lattice};
use vstd::prelude::*;

verus! {

/// Whether a tile is in one of the two states from which a cell can flip.
pub open spec fn is_resolved(tiles: Seq<HexagonColor>) -> bool {
    tiles == HEX_INSIDE@ || tiles == HEX_OUTSIDE@
}

/// Whether `flippable` holds exactly the keys of the resolved cells of
/// `cells`.
pub open spec fn flippable_exact(cells: Map<Key, Seq<HexagonColor>>, flippable: Set<Key>) -> bool {
    forall|key: Key|
        #![trigger flippable.contains(key)]
        #![trigger cells[key]]
        flippable.contains(key) <==> cells.contains_key(key) && is_resolved(cells[key])
}

/// Everything the phases of a run work on.
pub struct AppState {
    /// The raster that is painted at the end.
    pub buf: PixelBuffer,
    /// The tiling.
    pub hexagon_map: Lattice,
    /// The sub-triangles that are on the raster already.
    pub triangles_drawn: KeySet,
    /// The cells that may flip.
    pub modifiable_hexagons: KeySet,
    /// The colour of `Color1`, `Color2` and `Color3` on the raster.
    pub colors: [[u8; 3]; 3],
}

impl AppState {
    /// A state with no cells, nothing flippable and nothing painted.
    pub fn new(buf: PixelBuffer, colors: [[u8; 3]; 3]) -> (state: Self)
        ensures
            state.buf == buf,
            state.colors == colors,
            state.hexagon_map@ == Map::<Key, Seq<HexagonColor>>::empty(),
            state.triangles_drawn@ == Set::<Key>::empty(),
            state.modifiable_hexagons@ == Set::<Key>::empty(),
    {
        AppState {
            buf,
            hexagon_map: Lattice::new(),
            triangles_drawn: KeySet::new(),
            modifiable_hexagons: KeySet::new(),
            colors,
        }
    }

    /// Books the sub-triangle at `key` for painting. Says whether the caller
    /// is to paint it: a sub-triangle that was booked before is never painted
    /// again, and the set of booked ones only grows.
    pub fn claim_triangle(&mut self, key: Key) -> (fresh: bool)
        ensures
            fresh == !old(self).triangles_drawn@.contains(key),
            final(self).triangles_drawn@ == old(self).triangles_drawn@.insert(key),
            old(self).triangles_drawn@.subset_of(final(self).triangles_drawn@),
            final(self).buf == old(self).buf,
            final(self).hexagon_map == old(self).hexagon_map,
            final(self).modifiable_hexagons == old(self).modifiable_hexagons,
            final(self).colors == old(self).colors,
    {
        self.triangles_drawn.insert(key)
    }
}

} // verus!

//! One hexagonal cell: a ring of six coloured sub-triangles.

use crate::key::Key;
use crate::state::AppState;
use vstd::prelude::*;

verus! {

/// The three colours of the palette.
#[derive(Clone, Copy, Debug, PartialEq, Eq, Structural)]
pub enum HexagonColor {
    Color1,
    Color2,
    Color3,
}

/// The resolved state with the colour pairs in palette order.
pub const HEX_INSIDE: [HexagonColor; 6] = [
    HexagonColor::Color1,
    HexagonColor::Color1,
    HexagonColor::Color2,
    HexagonColor::Color2,
    HexagonColor::Color3,
    HexagonColor::Color3,
];

/// The resolved state that a cell in `HEX_INSIDE` flips to.
pub const HEX_OUTSIDE: [HexagonColor; 6] = [
    HexagonColor::Color2,
    HexagonColor::Color3,
    HexagonColor::Color3,
    HexagonColor::Color1,
    HexagonColor::Color1,
    HexagonColor::Color2,
];

/// The fill in the first colour.
pub const HEX_FILL1: [HexagonColor; 6] = [
    HexagonColor::Color1,
    HexagonColor::Color1,
    HexagonColor::Color1,
    HexagonColor::Color1,
    HexagonColor::Color1,
    HexagonColor::Color1,
];

/// The fill in the second colour.
pub const HEX_FILL2: [HexagonColor; 6] = [
    HexagonColor::Color2,
    HexagonColor::Color2,
    HexagonColor::Color2,
    HexagonColor::Color2,
    HexagonColor::Color2,
    HexagonColor::Color2,
];

/// The fill in the third colour.
pub const HEX_FILL3: [HexagonColor; 6] = [
    HexagonColor::Color3,
    HexagonColor::Color3,
    HexagonColor::Color3,
    HexagonColor::Color3,
    HexagonColor::Color3,
    HexagonColor::Color3,
];

/// The edge between the first fill and the third.
pub const HEX_EDGE1: [HexagonColor; 6] = [
    HexagonColor::Color1,
    HexagonColor::Color1,
    HexagonColor::Color1,
    HexagonColor::Color3,
    HexagonColor::Color3,
    HexagonColor::Color3,
];

/// The edge between the first fill and the second.
pub const HEX_EDGE2: [HexagonColor; 6] = [
    HexagonColor::Color1,
    HexagonColor::Color1,
    HexagonColor::Color2,
    HexagonColor::Color2,
    HexagonColor::Color2,
    HexagonColor::Color1,
];

/// The edge between the second fill and the third.
pub const HEX_EDGE3: [HexagonColor; 6] = [
    HexagonColor::Color3,
    HexagonColor::Color2,
    HexagonColor::Color2,
    HexagonColor::Color2,
    HexagonColor::Color3,
    HexagonColor::Color3,
];

/// The place of a colour in the palette.
pub open spec fn palette_index(color: HexagonColor) -> int {
    match color {
        HexagonColor::Color1 => 0,
        HexagonColor::Color2 => 1,
        HexagonColor::Color3 => 2,
    }
}

impl HexagonColor {
    /// The colour, out of `colors`, that stands for this one on the raster.
    pub fn pick(self, colors: &[[u8; 3]; 3]) -> (rgb: [u8; 3])
        ensures
            rgb == colors[palette_index(self)],
    {
        match self {
            HexagonColor::Color1 => colors[0],
            HexagonColor::Color2 => colors[1],
            HexagonColor::Color3 => colors[2],
        }
    }
}

/// The two slots that border `side`, as `(first, second)`.
pub open spec fn side_slots(side: int) -> (int, int) {
    if side == 0 {
        (5, 0)
    } else {
        (side, side - 1)
    }
}

/// The slot across the centre from `slot`.
pub open spec fn opposite_slot(slot: int) -> int {
    (slot + 3) % 6
}

/// `tiles` after it has absorbed `pattern` across `side`: each of the two
/// slots on that side takes the colour that `pattern` has opposite the other.
pub open spec fn merged(tiles: Seq<HexagonColor>, side: int, pattern: Seq<HexagonColor>) -> Seq<
    HexagonColor,
> {
    let (first, second) = side_slots(side);
    tiles.update(second, pattern[opposite_slot(first)]).update(
        first,
        pattern[opposite_slot(second)],
    )
}

/// Whether `tiles` already shows, on `side`, what `pattern` would write there.
pub open spec fn agrees_on(tiles: Seq<HexagonColor>, side: int, pattern: Seq<HexagonColor>) -> bool {
    let (first, second) = side_slots(side);
    tiles[second] == pattern[opposite_slot(first)] && tiles[first] == pattern[opposite_slot(second)]
}

/// Whether the sub-triangle at place `i` of `centers` is to be painted: it
/// is not on the raster yet, and no earlier place has the same key.
pub open spec fn first_claim(drawn: Set<Key>, centers: Seq<Key>, i: int) -> bool {
    !drawn.contains(centers[i]) && forall|j: int| 0 <= j < i ==> centers[j] != centers[i]
}

/// `drawn` with the first `n` of `centers` added.
pub open spec fn drawn_with(drawn: Set<Key>, centers: Seq<Key>, n: int) -> Set<Key> {
    Set::new(|key: Key| drawn.contains(key) || exists|i: int| 0 <= i < n && centers[i] == key)
}

/// The six slots of a hexagon, in ring order.
#[derive(Clone, Copy, Debug)]
pub struct Hexagon {
    pub tiles: [HexagonColor; 6],
}

impl View for Hexagon {
    type V = Seq<HexagonColor>;

    open spec fn view(&self) -> Seq<HexagonColor> {
        self.tiles@
    }
}

impl Hexagon {
    /// The hexagon with the given slots.
    pub fn new(tiles: [HexagonColor; 6]) -> (hex: Self)
        ensures
            hex.tiles == tiles,
    {
        Self { tiles }
    }

    /// Absorbs `swap_type` across `side`.
    pub fn change_state(&mut self, side: u8, swap_type: &[HexagonColor; 6])
        requires
            side < 6,
        ensures
            final(self)@ == merged(old(self)@, side as int, swap_type@),
    {
        let (first, second): (u8, u8) = if side == 0 {
            (5, 0)
        } else {
            (side, side - 1)
        };
        let first_next: u8 = (first + 3) % 6;
        let second_next: u8 = (second + 3) % 6;
        self.tiles[second as usize] = swap_type[first_next as usize];
        self.tiles[first as usize] = swap_type[second_next as usize];
    }

    /// The colour, out of `colors`, in which the sub-triangle at `slot` is
    /// painted.
    pub fn slot_color(&self, slot: usize, colors: &[[u8; 3]; 3]) -> (rgb: [u8; 3])
        requires
            slot < 6,
        ensures
            rgb == colors[palette_index(self@[slot as int])],
    {
        self.tiles[slot].pick(colors)
    }

    /// Books the six sub-triangles of the hexagon for painting, slot 0
    /// first. `centers` holds the key of each sub-triangle's centre. The
    /// answer holds, for each slot, the colour to paint its sub-triangle in,
    /// or `None` where that sub-triangle is on the raster already.
    pub fn draw(&self, state: &mut AppState, centers: &[Key; 6]) -> (paint: [Option<[u8; 3]>; 6])
        ensures
            forall|i: int|
                0 <= i < 6 ==> #[trigger] paint[i] == if first_claim(
                    old(state).triangles_drawn@,
                    centers@,
                    i,
                ) {
                    Some(old(state).colors[palette_index(self@[i])])
                } else {
                    None
                },
            final(state).triangles_drawn@ == drawn_with(old(state).triangles_drawn@, centers@, 6),
            old(state).triangles_drawn@.subset_of(final(state).triangles_drawn@),
            final(state).buf == old(state).buf,
            final(state).hexagon_map == old(state).hexagon_map,
            final(state).modifiable_hexagons == old(state).modifiable_hexagons,
            final(state).colors == old(state).colors,
    {
        let mut paint: [Option<[u8; 3]>; 6] = [None, None, None, None, None, None];
        let mut i: usize = 0;
        while i < 6
            invariant
                i <= 6,
                forall|j: int| i <= j < 6 ==> #[trigger] paint[j] is None,
                forall|j: int|
                    0 <= j < i ==> #[trigger] paint[j] == if first_claim(
                        old(state).triangles_drawn@,
                        centers@,
                        j,
                    ) {
                        Some(old(state).colors[palette_index(self@[j])])
                    } else {
                        None
                    },
                state.triangles_drawn@ == drawn_with(
                    old(state).triangles_drawn@,
                    centers@,
                    i as int,
                ),
                state.buf == old(state).buf,
                state.hexagon_map == old(state).hexagon_map,
                state.modifiable_hexagons == old(state).modifiable_hexagons,
                state.colors == old(state).colors,
            decreases 6 - i,
        {
            let ghost before = state.triangles_drawn@;
            if state.claim_triangle(centers[i]) {
                paint[i] = Some(self.slot_color(i, &state.colors));
            }
            proof {
                let drawn = old(state).triangles_drawn@;
                assert(first_claim(drawn, centers@, i as int) <==> !before.contains(
                    centers@[i as int],
                ));
                assert(state.triangles_drawn@ =~= drawn_with(drawn, centers@, i + 1)) by {
                    assert forall|key: Key|
                        state.triangles_drawn@.contains(key) <==> drawn_with(
                            drawn,
                            centers@,
                            i + 1,
                        ).contains(key) by {
                        if key == centers@[i as int] {
                            assert(0 <= i < i + 1 && centers@[i as int] == key);
                        }
                    }
                }
            }
            i += 1;
        }
        paint
    }

    /// Whether every slot is as in `HEX_INSIDE`.
    pub fn is_inside(&self) -> (b: bool)
        ensures
            b == (self@ == HEX_INSIDE@),
    {
        same_tiles(&self.tiles, &HEX_INSIDE)
    }

    /// Whether every slot is as in `HEX_OUTSIDE`.
    pub fn is_outside(&self) -> (b: bool)
        ensures
            b == (self@ == HEX_OUTSIDE@),
    {
        same_tiles(&self.tiles, &HEX_OUTSIDE)
    }
}

/// Slot-by-slot comparison of two rings.
fn same_tiles(a: &[HexagonColor; 6], b: &[HexagonColor; 6]) -> (eq: bool)
    ensures
        eq == (a@ == b@),
{
    let mut i: usize = 0;
    while i < 6
        invariant
            i <= 6,
            forall|j: int| 0 <= j < i ==> a[j] == b[j],
        decreases 6 - i,
    {
        if a[i] != b[i] {
            return false;
        }
        i += 1;
    }
    assert(a@ =~= b@);
    true
}

/// The six sides written out: which two slots each side writes, and from
/// which slots of the pattern.
pub proof fn lemma_merge_table(tiles: Seq<HexagonColor>, pattern: Seq<HexagonColor>)
    requires
        tiles.len() == 6,
    ensures
        merged(tiles, 0, pattern) == tiles.update(0, pattern[2]).update(5, pattern[3]),
        merged(tiles, 1, pattern) == tiles.update(0, pattern[4]).update(1, pattern[3]),
        merged(tiles, 2, pattern) == tiles.update(1, pattern[5]).update(2, pattern[4]),
        merged(tiles, 3, pattern) == tiles.update(2, pattern[0]).update(3, pattern[5]),
        merged(tiles, 4, pattern) == tiles.update(3, pattern[1]).update(4, pattern[0]),
        merged(tiles, 5, pattern) == tiles.update(4, pattern[2]).update(5, pattern[1]),
{
}

/// Absorbing across a side writes the two slots of that side and no other.
pub proof fn lemma_merged_slots(tiles: Seq<HexagonColor>, side: int, pattern: Seq<HexagonColor>)
    requires
        tiles.len() == 6,
        0 <= side < 6,
    ensures
        merged(tiles, side, pattern).len() == 6,
        agrees_on(merged(tiles, side, pattern), side, pattern),
        forall|slot: int|
            0 <= slot < 6 && slot != side_slots(side).0 && slot != side_slots(side).1 ==> merged(
                tiles,
                side,
                pattern,
            )[slot] == tiles[slot],
{
}

/// What a side has absorbed is forgotten when it absorbs again: only the
/// last pattern shows.
pub proof fn lemma_merge_overwrites(
    tiles: Seq<HexagonColor>,
    side: int,
    first: Seq<HexagonColor>,
    last: Seq<HexagonColor>,
)
    requires
        tiles.len() == 6,
        0 <= side < 6,
    ensures
        merged(merged(tiles, side, first), side, last) == merged(tiles, side, last),
{
    assert(merged(merged(tiles, side, first), side, last) =~= merged(tiles, side, last));
}

/// A tile is left as it is by absorbing a pattern exactly if it already
/// agrees with the pattern on that side.
pub proof fn lemma_merge_fixed_point(tiles: Seq<HexagonColor>, side: int, pattern: Seq<HexagonColor>)
    requires
        tiles.len() == 6,
        0 <= side < 6,
    ensures
        merged(tiles, side, pattern) == tiles <==> agrees_on(tiles, side, pattern),
{
    if agrees_on(tiles, side, pattern) {
        assert(merged(tiles, side, pattern) =~= tiles);
    }
}

/// When the cell next door flips to `HEX_OUTSIDE` and straight back to
/// `HEX_INSIDE`, a tile that absorbed both across `side` shows what a single
/// flip to `HEX_INSIDE` would have left, and is back where it began exactly if
/// it agreed with `HEX_INSIDE` on that side before.
pub proof fn lemma_flip_pair_restores(tiles: Seq<HexagonColor>, side: int)
    requires
        tiles.len() == 6,
        0 <= side < 6,
    ensures
        merged(merged(tiles, side, HEX_OUTSIDE@), side, HEX_INSIDE@) == merged(
            tiles,
            side,
            HEX_INSIDE@,
        ),
        merged(merged(tiles, side, HEX_OUTSIDE@), side, HEX_INSIDE@) == tiles <==> agrees_on(
            tiles,
            side,
            HEX_INSIDE@,
        ),
{
    lemma_merge_overwrites(tiles, side, HEX_OUTSIDE@, HEX_INSIDE@);
    lemma_merge_fixed_point(tiles, side, HEX_INSIDE@);
}

} // verus!

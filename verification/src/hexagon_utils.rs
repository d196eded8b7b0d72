//! Building the tiling and flipping its cells.

use crate::hexagon::{
    agrees_on, lemma_merge_fixed_point, lemma_merge_overwrites, merged, Hexagon, HexagonColor,
    HEX_EDGE1, HEX_EDGE2, HEX_EDGE3, HEX_FILL1, HEX_FILL2, HEX_FILL3, HEX_INSIDE, HEX_OUTSIDE,
};
use crate::key::Key;
use crate::lattice::KeySet;
use crate::state::{flippable_exact, is_resolved, AppState};
use rand::Rng;
use vstd::prelude::*;

verus! {

/// What the plane geometry says of one place of the lattice.
#[derive(Clone, Copy, Debug)]
pub struct Probe {
    /// For each of the six edges of the region, whether the place lies
    /// strictly beyond it.
    pub beyond: [bool; 6],
    /// The keys of the six places around it, from direction 0 onwards.
    pub neighbors: [Key; 6],
    /// For each of the three sector axes, whether the place lies strictly on
    /// its positive side.
    pub sector: [bool; 3],
}

/// The key of the cell in the middle of the region.
pub open spec fn origin() -> Key {
    (0i32, 0i32)
}

/// A place is outside the region if it lies beyond any of the six edges.
pub open spec fn outside_region(beyond: Seq<bool>) -> bool {
    exists|i: int| 0 <= i < 6 && beyond[i]
}

/// The fill of a cell by sector: the third fill where the first axis is
/// positive and the second is not, the first fill where the second is and the
/// third is not, the second fill where the third is and the first is not, and
/// none where the three signs agree.
pub open spec fn fill_pattern(sector: Seq<bool>) -> Option<Seq<HexagonColor>> {
    if sector[0] && !sector[1] {
        Some(HEX_FILL3@)
    } else if sector[1] && !sector[2] {
        Some(HEX_FILL1@)
    } else if sector[2] && !sector[0] {
        Some(HEX_FILL2@)
    } else {
        None
    }
}

/// `cells` with the three edge patterns put at the three keys of one ring,
/// one on each ray.
pub open spec fn with_ring(cells: Map<Key, Seq<HexagonColor>>, ring: Seq<Key>) -> Map<
    Key,
    Seq<HexagonColor>,
> {
    cells.insert(ring[0], HEX_EDGE1@).insert(ring[1], HEX_EDGE2@).insert(ring[2], HEX_EDGE3@)
}

/// `cells` with the edge patterns put on the first `n` rings, innermost first.
pub open spec fn with_rings(cells: Map<Key, Seq<HexagonColor>>, rings: Seq<[Key; 3]>, n: nat) -> Map<
    Key,
    Seq<HexagonColor>,
>
    decreases n,
{
    if n == 0 {
        cells
    } else {
        with_ring(with_rings(cells, rings, (n - 1) as nat), rings[n - 1]@)
    }
}

/// Whether the cell at the origin is in `HEX_INSIDE` and no other cell is
/// resolved: what holds of the tiling all through generation.
pub open spec fn only_origin_resolved(cells: Map<Key, Seq<HexagonColor>>) -> bool {
    &&& cells.contains_key(origin())
    &&& cells[origin()] == HEX_INSIDE@
    &&& forall|key: Key|
        cells.contains_key(key) && key != origin() ==> !is_resolved(#[trigger] cells[key])
}

/// Whether none of the keys of `rings` is the origin.
pub open spec fn rings_avoid_origin(rings: Seq<[Key; 3]>) -> bool {
    forall|i: int, j: int| 0 <= i < rings.len() && 0 <= j < 3 ==> (#[trigger] rings[i]@[j]) != origin()
}

proof fn lemma_patterns_differ()
    ensures
        HEX_INSIDE@ != HEX_OUTSIDE@,
        !is_resolved(HEX_EDGE1@),
        !is_resolved(HEX_EDGE2@),
        !is_resolved(HEX_EDGE3@),
        !is_resolved(HEX_FILL1@),
        !is_resolved(HEX_FILL2@),
        !is_resolved(HEX_FILL3@),
{
    assert(HEX_INSIDE@[0] != HEX_OUTSIDE@[0]);
    assert(HEX_EDGE1@[2] != HEX_INSIDE@[2] && HEX_EDGE1@[0] != HEX_OUTSIDE@[0]);
    assert(HEX_EDGE2@[4] != HEX_INSIDE@[4] && HEX_EDGE2@[0] != HEX_OUTSIDE@[0]);
    assert(HEX_EDGE3@[0] != HEX_INSIDE@[0] && HEX_EDGE3@[0] != HEX_OUTSIDE@[0]);
    assert(HEX_FILL1@[2] != HEX_INSIDE@[2] && HEX_FILL1@[0] != HEX_OUTSIDE@[0]);
    assert(HEX_FILL2@[0] != HEX_INSIDE@[0] && HEX_FILL2@[1] != HEX_OUTSIDE@[1]);
    assert(HEX_FILL3@[0] != HEX_INSIDE@[0] && HEX_FILL3@[0] != HEX_OUTSIDE@[0]);
}

proof fn lemma_rings_keep_keys(cells: Map<Key, Seq<HexagonColor>>, rings: Seq<[Key; 3]>, n: nat)
    ensures
        cells.dom().subset_of(with_rings(cells, rings, n).dom()),
    decreases n,
{
    if n > 0 {
        lemma_rings_keep_keys(cells, rings, (n - 1) as nat);
    }
}

proof fn lemma_rings_keep_origin(cells: Map<Key, Seq<HexagonColor>>, rings: Seq<[Key; 3]>, n: nat)
    requires
        n <= rings.len(),
        only_origin_resolved(cells),
        rings_avoid_origin(rings),
    ensures
        only_origin_resolved(with_rings(cells, rings, n)),
    decreases n,
{
    if n > 0 {
        lemma_rings_keep_origin(cells, rings, (n - 1) as nat);
        lemma_patterns_differ();
        let ring = rings[n - 1]@;
        assert(ring[0] != origin() && ring[1] != origin() && ring[2] != origin());
    }
}

/// Begins the tiling: puts `HEX_INSIDE` at the origin and then, ring by ring
/// from the innermost, the three edge patterns at the keys of `rings`. A key
/// that comes twice keeps what was put there last.
///
/// On an empty tiling, with no ring key at the origin, this leaves the origin
/// as the only resolved cell.
pub fn seed_lattice(state: &mut AppState, rings: &Vec<[Key; 3]>)
    ensures
        final(state).hexagon_map@ == with_rings(
            old(state).hexagon_map@.insert(origin(), HEX_INSIDE@),
            rings@,
            rings@.len(),
        ),
        old(state).hexagon_map@.dom().subset_of(final(state).hexagon_map@.dom()),
        old(state).hexagon_map@.dom().is_empty() && rings_avoid_origin(rings@)
            ==> only_origin_resolved(final(state).hexagon_map@),
        final(state).buf == old(state).buf,
        final(state).triangles_drawn == old(state).triangles_drawn,
        final(state).modifiable_hexagons == old(state).modifiable_hexagons,
        final(state).colors == old(state).colors,
{
    state.hexagon_map.insert((0, 0), Hexagon::new(HEX_INSIDE));
    let ghost start = state.hexagon_map@;
    let mut i: usize = 0;
    while i < rings.len()
        invariant
            i <= rings@.len(),
            state.hexagon_map@ == with_rings(start, rings@, i as nat),
            state.buf == old(state).buf,
            state.triangles_drawn == old(state).triangles_drawn,
            state.modifiable_hexagons == old(state).modifiable_hexagons,
            state.colors == old(state).colors,
        decreases rings@.len() - i,
    {
        let ring = rings[i];
        state.hexagon_map.insert(ring[0], Hexagon::new(HEX_EDGE1));
        state.hexagon_map.insert(ring[1], Hexagon::new(HEX_EDGE2));
        state.hexagon_map.insert(ring[2], Hexagon::new(HEX_EDGE3));
        i += 1;
    }
    proof {
        lemma_rings_keep_keys(start, rings@, rings@.len());
        if old(state).hexagon_map@.dom().is_empty() && rings_avoid_origin(rings@) {
            assert forall|key: Key| start.contains_key(key) implies key == origin() by {
                assert(!old(state).hexagon_map@.dom().contains(key));
            }
            lemma_rings_keep_origin(start, rings@, rings@.len());
        }
    }
}

/// `stack` without the keys at its top that have a cell already.
pub open spec fn pending(stack: Seq<Key>, cells: Map<Key, Seq<HexagonColor>>) -> Seq<Key>
    decreases stack.len(),
{
    if stack.len() > 0 && cells.contains_key(stack.last()) {
        pending(stack.drop_last(), cells)
    } else {
        stack
    }
}

/// Takes keys off the top of `stack` up to and with the first that has no
/// cell yet, and returns that one. `None` means that the stack ran empty:
/// the fill is complete.
pub fn next_candidate(state: &AppState, stack: &mut Vec<Key>) -> (candidate: Option<Key>)
    ensures
        candidate is None <==> pending(old(stack)@, state.hexagon_map@).len() == 0,
        candidate is None ==> final(stack)@.len() == 0,
        candidate matches Some(key) ==> !state.hexagon_map@.contains_key(key) && pending(
            old(stack)@,
            state.hexagon_map@,
        ) == final(stack)@.push(key),
{
    while stack.len() > 0
        invariant
            pending(stack@, state.hexagon_map@) == pending(old(stack)@, state.hexagon_map@),
        decreases stack@.len(),
    {
        let ghost before = stack@;
        let key = stack.pop().unwrap();
        assert(before.drop_last() == stack@ && before.last() == key);
        if !state.hexagon_map.contains_key(key) {
            assert(before == stack@.push(key));
            return Some(key);
        }
    }
    None
}

/// The tiling and the stack after the fill has dealt with `candidate`: a key
/// that has a cell, or lies outside the region, changes nothing; any other
/// has its six neighbours stacked, direction 0 lowest, and gets the fill of
/// its sector, if it has one.
pub open spec fn settled(
    cells: Map<Key, Seq<HexagonColor>>,
    stack: Seq<Key>,
    candidate: Key,
    probe: Probe,
) -> (Map<Key, Seq<HexagonColor>>, Seq<Key>) {
    if cells.contains_key(candidate) || outside_region(probe.beyond@) {
        (cells, stack)
    } else {
        (
            match fill_pattern(probe.sector@) {
                Some(pattern) => cells.insert(candidate, pattern),
                None => cells,
            },
            stack + probe.neighbors@,
        )
    }
}

fn lies_outside(beyond: &[bool; 6]) -> (outside: bool)
    ensures
        outside == outside_region(beyond@),
{
    beyond[0] || beyond[1] || beyond[2] || beyond[3] || beyond[4] || beyond[5]
}

fn fill_for(sector: &[bool; 3]) -> (fill: Option<[HexagonColor; 6]>)
    ensures
        fill is Some <==> fill_pattern(sector@) is Some,
        fill matches Some(pattern) ==> Some(pattern@) == fill_pattern(sector@),
{
    if sector[0] && !sector[1] {
        Some(HEX_FILL3)
    } else if sector[1] && !sector[2] {
        Some(HEX_FILL1)
    } else if sector[2] && !sector[0] {
        Some(HEX_FILL2)
    } else {
        None
    }
}

/// One step of the fill: deals with `candidate`, of which `probe` holds the
/// geometry. During generation it keeps the origin the only resolved cell.
pub fn settle_candidate(state: &mut AppState, stack: &mut Vec<Key>, candidate: Key, probe: &Probe)
    ensures
        (final(state).hexagon_map@, final(stack)@) == settled(
            old(state).hexagon_map@,
            old(stack)@,
            candidate,
            *probe,
        ),
        old(state).hexagon_map@.dom().subset_of(final(state).hexagon_map@.dom()),
        only_origin_resolved(old(state).hexagon_map@) ==> only_origin_resolved(
            final(state).hexagon_map@,
        ),
        final(state).buf == old(state).buf,
        final(state).triangles_drawn == old(state).triangles_drawn,
        final(state).modifiable_hexagons == old(state).modifiable_hexagons,
        final(state).colors == old(state).colors,
{
    if state.hexagon_map.contains_key(candidate) || lies_outside(&probe.beyond) {
        return ;
    }
    let mut i: usize = 0;
    while i < 6
        invariant
            i <= 6,
            stack@ == old(stack)@ + probe.neighbors@.subrange(0, i as int),
        decreases 6 - i,
    {
        stack.push(probe.neighbors[i]);
        i += 1;
    }
    assert(probe.neighbors@.subrange(0, 6) == probe.neighbors@);
    match fill_for(&probe.sector) {
        Some(pattern) => {
            state.hexagon_map.insert(candidate, Hexagon::new(pattern));
            proof {
                lemma_patterns_differ();
            }
        },
        None => {},
    }
}

/// Ends generation: the origin becomes flippable. If it is the only resolved
/// cell and nothing was flippable, the flippable set then holds exactly the
/// resolved cells.
pub fn mark_origin_flippable(state: &mut AppState)
    ensures
        final(state).modifiable_hexagons@ == old(state).modifiable_hexagons@.insert(origin()),
        only_origin_resolved(old(state).hexagon_map@) && old(state).modifiable_hexagons@.is_empty()
            ==> flippable_exact(final(state).hexagon_map@, final(state).modifiable_hexagons@),
        final(state).buf == old(state).buf,
        final(state).hexagon_map == old(state).hexagon_map,
        final(state).triangles_drawn == old(state).triangles_drawn,
        final(state).colors == old(state).colors,
{
    state.modifiable_hexagons.insert((0, 0));
    proof {
        if only_origin_resolved(old(state).hexagon_map@) && old(
            state,
        ).modifiable_hexagons@.is_empty() {
            assert forall|key: Key|
                state.modifiable_hexagons@.contains(key) <==> state.hexagon_map@.contains_key(key)
                    && is_resolved(#[trigger] state.hexagon_map@[key]) by {
                assert(!old(state).modifiable_hexagons@.contains(key));
            }
        }
    }
}

/// `rand::Rng::gen_range` on the thread's generator, with the range from 0 up
/// to and without `bound`: some index below `bound`. The call panics on an
/// empty range, which the precondition rules out, and where the operating
/// system gives the generator no seed.
#[verifier::external_body]
fn random_below(bound: usize) -> (index: usize)
    requires
        bound > 0,
    ensures
        index < bound,
{
    rand::thread_rng().gen_range(0..bound)
}

/// The next cell to flip: a flippable cell drawn at random, or `None` when
/// no cell is flippable and the run is over.
pub fn next_flip(state: &AppState) -> (coord: Option<Key>)
    ensures
        coord is None <==> state.modifiable_hexagons@.is_empty(),
        coord matches Some(key) ==> state.modifiable_hexagons@.contains(key),
{
    if state.modifiable_hexagons.is_empty() {
        None
    } else {
        Some(get_random_from_set(&state.modifiable_hexagons))
    }
}

/// Draws a key of `set` at random: the one at a random place of the walk.
pub fn get_random_from_set(set: &KeySet) -> (key: Key)
    requires
        !set@.is_empty(),
    ensures
        set@.contains(key),
{
    proof {
        set.lemma_finite();
    }
    let len = set.len();
    let rand_num = random_below(len);
    let key = set.nth(rand_num);
    assert(set.walk().to_set().contains(set.walk()[rand_num as int]));
    key
}

/// The state a cell takes when it flips: away from `HEX_INSIDE` if it is
/// there, and to `HEX_INSIDE` from anywhere else.
pub open spec fn flip_target(tiles: Seq<HexagonColor>) -> Seq<HexagonColor> {
    if tiles == HEX_INSIDE@ {
        HEX_OUTSIDE@
    } else {
        HEX_INSIDE@
    }
}

/// The side with which the neighbour in direction `dir` faces the cell.
pub open spec fn facing_side(dir: int) -> int {
    (dir + 3) % 6
}

/// One step of propagation: the cell at `neighbor`, if there is one, absorbs
/// `into` across the side that faces the flipped cell, and is flippable from
/// then on exactly if that left it resolved.
pub open spec fn propagate_one(
    cells: Map<Key, Seq<HexagonColor>>,
    flippable: Set<Key>,
    neighbor: Key,
    dir: int,
    into: Seq<HexagonColor>,
) -> (Map<Key, Seq<HexagonColor>>, Set<Key>) {
    if cells.contains_key(neighbor) {
        let tiles = merged(cells[neighbor], facing_side(dir), into);
        (
            cells.insert(neighbor, tiles),
            if is_resolved(tiles) {
                flippable.insert(neighbor)
            } else {
                flippable.remove(neighbor)
            },
        )
    } else {
        (cells, flippable)
    }
}

/// Propagation to the neighbours in directions `0` to `n - 1`, in that order.
pub open spec fn propagate(
    cells: Map<Key, Seq<HexagonColor>>,
    flippable: Set<Key>,
    neighbors: Seq<Key>,
    into: Seq<HexagonColor>,
    n: nat,
) -> (Map<Key, Seq<HexagonColor>>, Set<Key>)
    decreases n,
{
    if n == 0 {
        (cells, flippable)
    } else {
        let (c, f) = propagate(cells, flippable, neighbors, into, (n - 1) as nat);
        propagate_one(c, f, neighbors[n - 1], n - 1, into)
    }
}

/// The tiling and the flippable set after the cell at `coord` has flipped
/// and its six neighbours have followed.
pub open spec fn flipped(
    cells: Map<Key, Seq<HexagonColor>>,
    flippable: Set<Key>,
    coord: Key,
    neighbors: Seq<Key>,
) -> (Map<Key, Seq<HexagonColor>>, Set<Key>) {
    let into = flip_target(cells[coord]);
    propagate(cells.insert(coord, into), flippable, neighbors, into, 6)
}

/// Flips the cell at `coord`. `neighbors` holds the keys of the six places
/// around it, from direction 0 onwards. With no cell at `coord` nothing
/// changes and the answer is `Err`.
pub fn change_hex_grid(state: &mut AppState, coord: &Key, neighbors: &[Key; 6]) -> (result: Result<
    (),
    (),
>)
    ensures
        result is Ok <==> old(state).hexagon_map@.contains_key(*coord),
        result is Err ==> *final(state) == *old(state),
        result is Ok ==> (final(state).hexagon_map@, final(state).modifiable_hexagons@) == flipped(
            old(state).hexagon_map@,
            old(state).modifiable_hexagons@,
            *coord,
            neighbors@,
        ),
        final(state).hexagon_map@.dom() == old(state).hexagon_map@.dom(),
        forall|key: Key, slot: int|
            final(state).hexagon_map@.contains_key(key) && 0 <= slot < 6 ==> {
                let color = #[trigger] final(state).hexagon_map@[key][slot];
                color == HexagonColor::Color1 || color == HexagonColor::Color2 || color
                    == HexagonColor::Color3
            },
        flippable_exact(old(state).hexagon_map@, old(state).modifiable_hexagons@) && old(
            state,
        ).modifiable_hexagons@.contains(*coord) ==> flippable_exact(
            final(state).hexagon_map@,
            final(state).modifiable_hexagons@,
        ),
        final(state).buf == old(state).buf,
        final(state).triangles_drawn == old(state).triangles_drawn,
        final(state).colors == old(state).colors,
{
    let into: [HexagonColor; 6] = match state.hexagon_map.get(*coord) {
        Some(hex) => if hex.is_inside() {
            HEX_OUTSIDE
        } else {
            HEX_INSIDE
        },
        None => {
            return Err(());
        },
    };
    state.hexagon_map.insert(*coord, Hexagon::new(into));
    let ghost start = state.hexagon_map@;
    let mut i: u8 = 0;
    while i < 6
        invariant
            i <= 6,
            (state.hexagon_map@, state.modifiable_hexagons@) == propagate(
                start,
                old(state).modifiable_hexagons@,
                neighbors@,
                into@,
                i as nat,
            ),
            state.buf == old(state).buf,
            state.triangles_drawn == old(state).triangles_drawn,
            state.colors == old(state).colors,
        decreases 6 - i,
    {
        let c = neighbors[i as usize];
        match state.hexagon_map.get(c) {
            Some(hex) => {
                let mut hex_neigh = hex;
                hex_neigh.change_state((i + 3) % 6, &into);
                state.hexagon_map.insert(c, hex_neigh);
                if hex_neigh.is_inside() || hex_neigh.is_outside() {
                    state.modifiable_hexagons.insert(c);
                } else {
                    state.modifiable_hexagons.remove(c);
                }
            },
            None => {},
        }
        i += 1;
    }
    proof {
        let cells = old(state).hexagon_map@;
        let flippable = old(state).modifiable_hexagons@;
        lemma_flip_keeps_keys(cells, flippable, *coord, neighbors@);
        if flippable_exact(cells, flippable) && flippable.contains(*coord) {
            lemma_flip_keeps_flippable_exact(cells, flippable, *coord, neighbors@);
        }
    }
    Ok(())
}

/// Whether the six `neighbors` are six different keys, none of them `coord`.
pub open spec fn distinct_around(coord: Key, neighbors: Seq<Key>) -> bool {
    &&& neighbors.len() == 6
    &&& forall|i: int| 0 <= i < 6 ==> neighbors[i] != coord
    &&& forall|i: int, j: int| 0 <= i < j < 6 ==> neighbors[i] != neighbors[j]
}

/// Whether `key` is one of the first `n` of `neighbors`.
pub open spec fn among(neighbors: Seq<Key>, n: int, key: Key) -> bool {
    exists|i: int| 0 <= i < n && neighbors[i] == key
}

/// Whether every tile of `cells` is a ring of six slots.
pub open spec fn rings_of_six(cells: Map<Key, Seq<HexagonColor>>) -> bool {
    forall|key: Key| cells.contains_key(key) ==> (#[trigger] cells[key]).len() == 6
}

proof fn lemma_propagate_keeps_keys(
    cells: Map<Key, Seq<HexagonColor>>,
    flippable: Set<Key>,
    neighbors: Seq<Key>,
    into: Seq<HexagonColor>,
    n: nat,
)
    ensures
        propagate(cells, flippable, neighbors, into, n).0.dom() == cells.dom(),
    decreases n,
{
    if n > 0 {
        lemma_propagate_keeps_keys(cells, flippable, neighbors, into, (n - 1) as nat);
        let (c, f) = propagate(cells, flippable, neighbors, into, (n - 1) as nat);
        assert(propagate_one(c, f, neighbors[n - 1], n - 1, into).0.dom() =~= c.dom());
    }
}

/// A flip changes tiles, never the set of keys.
pub proof fn lemma_flip_keeps_keys(
    cells: Map<Key, Seq<HexagonColor>>,
    flippable: Set<Key>,
    coord: Key,
    neighbors: Seq<Key>,
)
    requires
        cells.contains_key(coord),
    ensures
        flipped(cells, flippable, coord, neighbors).0.dom() == cells.dom(),
{
    let into = flip_target(cells[coord]);
    lemma_propagate_keeps_keys(cells.insert(coord, into), flippable, neighbors, into, 6);
    assert(cells.insert(coord, into).dom() =~= cells.dom());
}

proof fn lemma_propagate_keeps_exact(
    cells: Map<Key, Seq<HexagonColor>>,
    flippable: Set<Key>,
    neighbors: Seq<Key>,
    into: Seq<HexagonColor>,
    n: nat,
)
    requires
        flippable_exact(cells, flippable),
    ensures
        flippable_exact(
            propagate(cells, flippable, neighbors, into, n).0,
            propagate(cells, flippable, neighbors, into, n).1,
        ),
    decreases n,
{
    if n > 0 {
        lemma_propagate_keeps_exact(cells, flippable, neighbors, into, (n - 1) as nat);
        let (c0, f0) = propagate(cells, flippable, neighbors, into, (n - 1) as nat);
        let (c, f) = propagate_one(c0, f0, neighbors[n - 1], n - 1, into);
        assert forall|key: Key|
            f.contains(key) <==> c.contains_key(key) && is_resolved(#[trigger] c[key]) by {
            if key != neighbors[n - 1] {
                assert(c[key] == c0[key]);
                assert(f.contains(key) == f0.contains(key));
            }
        }
    }
}

/// If the flippable set holds exactly the resolved cells and the cell that
/// flips is one of them, the set holds exactly the resolved cells afterwards.
pub proof fn lemma_flip_keeps_flippable_exact(
    cells: Map<Key, Seq<HexagonColor>>,
    flippable: Set<Key>,
    coord: Key,
    neighbors: Seq<Key>,
)
    requires
        flippable_exact(cells, flippable),
        flippable.contains(coord),
    ensures
        flippable_exact(
            flipped(cells, flippable, coord, neighbors).0,
            flipped(cells, flippable, coord, neighbors).1,
        ),
{
    let into = flip_target(cells[coord]);
    let start = cells.insert(coord, into);
    assert forall|key: Key|
        flippable.contains(key) <==> start.contains_key(key) && is_resolved(
            #[trigger] start[key],
        ) by {
        if key != coord {
            assert(start[key] == cells[key]);
        }
    }
    lemma_propagate_keeps_exact(cells.insert(coord, into), flippable, neighbors, into, 6);
}

proof fn lemma_propagate_keeps_rings(
    cells: Map<Key, Seq<HexagonColor>>,
    flippable: Set<Key>,
    neighbors: Seq<Key>,
    into: Seq<HexagonColor>,
    n: nat,
)
    requires
        rings_of_six(cells),
    ensures
        rings_of_six(propagate(cells, flippable, neighbors, into, n).0),
    decreases n,
{
    if n > 0 {
        lemma_propagate_keeps_rings(cells, flippable, neighbors, into, (n - 1) as nat);
    }
}

/// A flip leaves every tile a ring of six slots, each in one of the three
/// colours of the palette.
pub proof fn lemma_flip_stays_in_palette(
    cells: Map<Key, Seq<HexagonColor>>,
    flippable: Set<Key>,
    coord: Key,
    neighbors: Seq<Key>,
)
    requires
        rings_of_six(cells),
    ensures
        rings_of_six(flipped(cells, flippable, coord, neighbors).0),
        forall|key: Key, slot: int|
            flipped(cells, flippable, coord, neighbors).0.contains_key(key) && 0 <= slot < 6 ==> {
                let color = #[trigger] flipped(cells, flippable, coord, neighbors).0[key][slot];
                color == HexagonColor::Color1 || color == HexagonColor::Color2 || color
                    == HexagonColor::Color3
            },
{
    let into = flip_target(cells[coord]);
    assert(rings_of_six(cells.insert(coord, into)));
    lemma_propagate_keeps_rings(cells.insert(coord, into), flippable, neighbors, into, 6);
}

proof fn lemma_propagate_untouched(
    cells: Map<Key, Seq<HexagonColor>>,
    flippable: Set<Key>,
    neighbors: Seq<Key>,
    into: Seq<HexagonColor>,
    n: nat,
    key: Key,
)
    requires
        !among(neighbors, n as int, key),
    ensures
        propagate(cells, flippable, neighbors, into, n).0[key] == cells[key],
        propagate(cells, flippable, neighbors, into, n).1.contains(key) <==> flippable.contains(
            key,
        ),
    decreases n,
{
    if n > 0 {
        let m = (n - 1) as nat;
        assert(!among(neighbors, m as int, key)) by {
            if among(neighbors, m as int, key) {
                let i = choose|i: int| 0 <= i < m && neighbors[i] == key;
                assert(0 <= i < n && neighbors[i] == key);
            }
        }
        lemma_propagate_untouched(cells, flippable, neighbors, into, m, key);
        assert(neighbors[n - 1] != key) by {
            if neighbors[n - 1] == key {
                assert(0 <= n - 1 < n && neighbors[n - 1] == key);
            }
        }
    }
}

proof fn lemma_propagate_touched(
    cells: Map<Key, Seq<HexagonColor>>,
    flippable: Set<Key>,
    neighbors: Seq<Key>,
    into: Seq<HexagonColor>,
    n: nat,
    i: int,
)
    requires
        0 <= i < n <= 6,
        neighbors.len() == 6,
        forall|a: int, b: int| 0 <= a < b < 6 ==> neighbors[a] != neighbors[b],
    ensures
        ({
            let (c, f) = propagate(cells, flippable, neighbors, into, n);
            if cells.contains_key(neighbors[i]) {
                c[neighbors[i]] == merged(cells[neighbors[i]], facing_side(i), into) && (f.contains(
                    neighbors[i],
                ) <==> is_resolved(c[neighbors[i]]))
            } else {
                f.contains(neighbors[i]) <==> flippable.contains(neighbors[i])
            }
        }),
    decreases n,
{
    let m = (n - 1) as nat;
    lemma_propagate_keeps_keys(cells, flippable, neighbors, into, m);
    if i == n - 1 {
        assert(!among(neighbors, m as int, neighbors[i])) by {
            if among(neighbors, m as int, neighbors[i]) {
                let a = choose|a: int| 0 <= a < m && neighbors[a] == neighbors[i];
                assert(neighbors[a] != neighbors[i]);
            }
        }
        lemma_propagate_untouched(cells, flippable, neighbors, into, m, neighbors[i]);
    } else {
        lemma_propagate_touched(cells, flippable, neighbors, into, m, i);
        assert(neighbors[i] != neighbors[n - 1]);
    }
}

/// With six different neighbours, none of them the cell itself, a flip does
/// this and no more: the cell takes its new state; each neighbour that exists
/// absorbs that state across the side that faces the cell, and is flippable
/// afterwards exactly if that left it resolved; every other tile and every
/// other membership stays.
pub proof fn lemma_flip_distinct_neighbors(
    cells: Map<Key, Seq<HexagonColor>>,
    flippable: Set<Key>,
    coord: Key,
    neighbors: Seq<Key>,
)
    requires
        cells.contains_key(coord),
        distinct_around(coord, neighbors),
    ensures
        ({
            let into = flip_target(cells[coord]);
            let (c, f) = flipped(cells, flippable, coord, neighbors);
            &&& c.dom() == cells.dom()
            &&& c[coord] == into
            &&& f.contains(coord) <==> flippable.contains(coord)
            &&& forall|i: int|
                0 <= i < 6 && cells.contains_key(#[trigger] neighbors[i]) ==> c[neighbors[i]]
                    == merged(cells[neighbors[i]], facing_side(i), into) && (f.contains(
                    neighbors[i],
                ) <==> is_resolved(c[neighbors[i]]))
            &&& forall|i: int|
                0 <= i < 6 && !cells.contains_key(#[trigger] neighbors[i]) ==> (f.contains(
                    neighbors[i],
                ) <==> flippable.contains(neighbors[i]))
            &&& forall|key: Key|
                key != coord && !among(neighbors, 6, key) ==> #[trigger] c[key] == cells[key] && (
                f.contains(key) <==> flippable.contains(key))
        }),
{
    let into = flip_target(cells[coord]);
    let start = cells.insert(coord, into);
    lemma_flip_keeps_keys(cells, flippable, coord, neighbors);
    let (c, f) = flipped(cells, flippable, coord, neighbors);
    assert forall|i: int| 0 <= i < 6 && cells.contains_key(#[trigger] neighbors[i]) implies c[neighbors[i]]
        == merged(cells[neighbors[i]], facing_side(i), into) && (f.contains(neighbors[i])
        <==> is_resolved(c[neighbors[i]])) by {
        lemma_propagate_touched(start, flippable, neighbors, into, 6, i);
        assert(start.contains_key(neighbors[i]));
        assert(start[neighbors[i]] == cells[neighbors[i]]);
    }
    assert forall|i: int| 0 <= i < 6 && !cells.contains_key(#[trigger] neighbors[i]) implies (
    f.contains(neighbors[i]) <==> flippable.contains(neighbors[i])) by {
        lemma_propagate_touched(start, flippable, neighbors, into, 6, i);
        assert(!start.contains_key(neighbors[i]));
    }
    assert forall|key: Key| key != coord && !among(neighbors, 6, key) implies #[trigger] c[key]
        == cells[key] && (f.contains(key) <==> flippable.contains(key)) by {
        lemma_propagate_untouched(start, flippable, neighbors, into, 6, key);
        assert(start[key] == cells[key]);
    }
    assert(!among(neighbors, 6, coord)) by {
        if among(neighbors, 6, coord) {
            let i = choose|i: int| 0 <= i < 6 && neighbors[i] == coord;
        }
    }
    lemma_propagate_untouched(start, flippable, neighbors, into, 6, coord);
    assert(c[coord] == start[coord]);
}

/// A cell in `HEX_INSIDE` that flips twice is back in `HEX_INSIDE`, and so is
/// everything else but the neighbours: each neighbour that exists shows what
/// absorbing `HEX_INSIDE` once would have left. So the pair of flips restores
/// a neighbour exactly if that neighbour agreed with `HEX_INSIDE` on the side
/// that faces the cell, and restores the whole tiling exactly if all did.
pub proof fn lemma_flip_twice(
    cells: Map<Key, Seq<HexagonColor>>,
    flippable: Set<Key>,
    coord: Key,
    neighbors: Seq<Key>,
)
    requires
        rings_of_six(cells),
        cells.contains_key(coord),
        cells[coord] == HEX_INSIDE@,
        distinct_around(coord, neighbors),
    ensures
        ({
            let (c1, f1) = flipped(cells, flippable, coord, neighbors);
            let (c2, f2) = flipped(c1, f1, coord, neighbors);
            &&& c1[coord] == HEX_OUTSIDE@
            &&& c2[coord] == HEX_INSIDE@
            &&& c2.dom() == cells.dom()
            &&& forall|i: int|
                0 <= i < 6 && cells.contains_key(#[trigger] neighbors[i]) ==> c2[neighbors[i]]
                    == merged(cells[neighbors[i]], facing_side(i), HEX_INSIDE@) && (
                c2[neighbors[i]] == cells[neighbors[i]] <==> agrees_on(
                    cells[neighbors[i]],
                    facing_side(i),
                    HEX_INSIDE@,
                ))
            &&& forall|key: Key|
                key != coord && !among(neighbors, 6, key) ==> #[trigger] c2[key] == cells[key]
            &&& c2 == cells <==> (forall|i: int|
                0 <= i < 6 && cells.contains_key(#[trigger] neighbors[i]) ==> agrees_on(
                    cells[neighbors[i]],
                    facing_side(i),
                    HEX_INSIDE@,
                ))
        }),
{
    let (c1, f1) = flipped(cells, flippable, coord, neighbors);
    let (c2, f2) = flipped(c1, f1, coord, neighbors);
    lemma_flip_distinct_neighbors(cells, flippable, coord, neighbors);
    assert(HEX_INSIDE@ != HEX_OUTSIDE@) by {
        assert(HEX_INSIDE@[0] != HEX_OUTSIDE@[0]);
    }
    assert(c1[coord] == HEX_OUTSIDE@);
    assert(c1.contains_key(coord));
    lemma_flip_distinct_neighbors(c1, f1, coord, neighbors);
    assert(c2[coord] == HEX_INSIDE@);
    assert forall|i: int| 0 <= i < 6 && cells.contains_key(#[trigger] neighbors[i]) implies c2[neighbors[i]]
        == merged(cells[neighbors[i]], facing_side(i), HEX_INSIDE@) && (c2[neighbors[i]]
        == cells[neighbors[i]] <==> agrees_on(cells[neighbors[i]], facing_side(i), HEX_INSIDE@)) by {
        let tiles = cells[neighbors[i]];
        assert(c1.contains_key(neighbors[i]));
        assert(c1[neighbors[i]] == merged(tiles, facing_side(i), HEX_OUTSIDE@));
        lemma_merge_overwrites(tiles, facing_side(i), HEX_OUTSIDE@, HEX_INSIDE@);
        lemma_merge_fixed_point(tiles, facing_side(i), HEX_INSIDE@);
    }
    if forall|i: int|
        0 <= i < 6 && cells.contains_key(#[trigger] neighbors[i]) ==> agrees_on(
            cells[neighbors[i]],
            facing_side(i),
            HEX_INSIDE@,
        ) {
        assert forall|key: Key| cells.contains_key(key) implies c2[key] == cells[key] by {
            if key != coord && among(neighbors, 6, key) {
                let i = choose|i: int| 0 <= i < 6 && neighbors[i] == key;
                assert(cells.contains_key(neighbors[i]));
            }
        }
        assert(c2 =~= cells);
    }
}

} // verus!

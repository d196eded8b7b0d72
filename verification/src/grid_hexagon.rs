//! Hexagons given by kind: which sub-triangle gets which colour, and in
//! which order they are drawn.

use crate::hexagon::{drawn_with, first_claim, palette_index, HexagonColor};
use crate::key::Key;
use crate::state::AppState;
use vstd::prelude::*;

verus! {

/// The ways a hexagon can be coloured as a whole.
#[derive(Clone, Copy, Debug, PartialEq, Eq, Structural)]
pub enum HexagonKind {
    Fill1,
    Fill2,
    Fill3,
    Vertical12,
    Diagonal23,
    Diagonal31,
    Inside123,
    Outside123,
    Forbidden,
}

/// The colours that hexagons given by kind are drawn in, for `Color1`,
/// `Color2` and `Color3`.
pub const KIND_PALETTE: [[u8; 3]; 3] = [[105, 154, 225], [225, 117, 46], [114, 225, 105]];

/// The point around the centre at which drawing starts.
pub open spec fn kind_start(kind: HexagonKind) -> int {
    match kind {
        HexagonKind::Vertical12 => 5,
        HexagonKind::Diagonal23 => 1,
        HexagonKind::Diagonal31 => 3,
        HexagonKind::Outside123 => 3,
        _ => 0,
    }
}

/// The colour of the sub-triangle that is drawn at `step`: one colour
/// throughout, two colours for three steps each, or three for two each.
pub open spec fn kind_color(kind: HexagonKind, step: int) -> HexagonColor {
    match kind {
        HexagonKind::Fill1 => HexagonColor::Color1,
        HexagonKind::Fill2 => HexagonColor::Color2,
        HexagonKind::Fill3 => HexagonColor::Color3,
        HexagonKind::Vertical12 => if step < 3 {
            HexagonColor::Color1
        } else {
            HexagonColor::Color2
        },
        HexagonKind::Diagonal23 => if step < 3 {
            HexagonColor::Color2
        } else {
            HexagonColor::Color3
        },
        HexagonKind::Diagonal31 => if step < 3 {
            HexagonColor::Color3
        } else {
            HexagonColor::Color1
        },
        _ => if step < 2 {
            HexagonColor::Color1
        } else if step < 4 {
            HexagonColor::Color2
        } else {
            HexagonColor::Color3
        },
    }
}

/// The six sub-triangles of a hexagon of the given kind in drawing order,
/// each as the point around the centre and the colour: the points go round
/// from the kind's start. A forbidden hexagon is not drawn.
pub fn draw_plan(kind: HexagonKind) -> (plan: Option<[(u8, HexagonColor); 6]>)
    ensures
        plan is None <==> kind == HexagonKind::Forbidden,
        plan matches Some(steps) ==> forall|step: int|
            0 <= step < 6 ==> (#[trigger] steps[step]).0 == (kind_start(kind) + step) % 6
                && steps[step].1 == kind_color(kind, step),
{
    let c1 = HexagonColor::Color1;
    let c2 = HexagonColor::Color2;
    let c3 = HexagonColor::Color3;
    let (start, colors): (u8, [HexagonColor; 6]) = match kind {
        HexagonKind::Fill1 => (0, [c1, c1, c1, c1, c1, c1]),
        HexagonKind::Fill2 => (0, [c2, c2, c2, c2, c2, c2]),
        HexagonKind::Fill3 => (0, [c3, c3, c3, c3, c3, c3]),
        HexagonKind::Vertical12 => (5, [c1, c1, c1, c2, c2, c2]),
        HexagonKind::Diagonal23 => (1, [c2, c2, c2, c3, c3, c3]),
        HexagonKind::Diagonal31 => (3, [c3, c3, c3, c1, c1, c1]),
        HexagonKind::Inside123 => (0, [c1, c1, c2, c2, c3, c3]),
        HexagonKind::Outside123 => (3, [c1, c1, c2, c2, c3, c3]),
        HexagonKind::Forbidden => {
            return None;
        },
    };
    let mut plan: [(u8, HexagonColor); 6] = [(0u8, c1);6];
    let mut i_p: u8 = start;
    let mut i: usize = 0;
    while i < 6
        invariant
            i <= 6,
            start == kind_start(kind),
            i_p == (start + i) % 6,
            forall|step: int| 0 <= step < 6 ==> #[trigger] colors[step] == kind_color(kind, step),
            forall|step: int|
                0 <= step < i ==> (#[trigger] plan[step]).0 == (start + step) % 6 && plan[step].1
                    == kind_color(kind, step),
        decreases 6 - i,
    {
        plan[i] = (i_p, colors[i]);
        i_p = (i_p + 1) % 6;
        i += 1;
    }
    Some(plan)
}

/// The keys of the sub-triangles of a hexagon of the given kind in drawing
/// order, where `centers` holds them by point.
pub open spec fn drawing_order(kind: HexagonKind, centers: Seq<Key>) -> Seq<Key> {
    Seq::new(6, |step: int| centers[(kind_start(kind) + step) % 6])
}

/// Books the six sub-triangles of a hexagon of the given kind for painting,
/// in drawing order. `centers` holds the key of each sub-triangle's centre,
/// by point. The answer holds, for each step, the point to paint at and the
/// colour, or `None` where that sub-triangle is on the raster already. A
/// forbidden hexagon books nothing.
pub fn draw_hexagon(state: &mut AppState, centers: &[Key; 6], kind: HexagonKind) -> (paint: [Option<
    (u8, [u8; 3]),
>; 6])
    ensures
        kind == HexagonKind::Forbidden ==> *final(state) == *old(state) && forall|step: int|
            0 <= step < 6 ==> #[trigger] paint[step] is None,
        kind != HexagonKind::Forbidden ==> final(state).triangles_drawn@ == drawn_with(
            old(state).triangles_drawn@,
            drawing_order(kind, centers@),
            6,
        ) && forall|step: int|
            0 <= step < 6 ==> #[trigger] paint[step] == if first_claim(
                old(state).triangles_drawn@,
                drawing_order(kind, centers@),
                step,
            ) {
                Some(
                    (
                        ((kind_start(kind) + step) % 6) as u8,
                        KIND_PALETTE[palette_index(kind_color(kind, step))],
                    ),
                )
            } else {
                None
            },
        old(state).triangles_drawn@.subset_of(final(state).triangles_drawn@),
        final(state).buf == old(state).buf,
        final(state).hexagon_map == old(state).hexagon_map,
        final(state).modifiable_hexagons == old(state).modifiable_hexagons,
        final(state).colors == old(state).colors,
{
    let mut paint: [Option<(u8, [u8; 3])>; 6] = [None, None, None, None, None, None];
    let steps = match draw_plan(kind) {
        Some(steps) => steps,
        None => {
            return paint;
        },
    };
    let ghost order = drawing_order(kind, centers@);
    let mut i: usize = 0;
    while i < 6
        invariant
            i <= 6,
            kind != HexagonKind::Forbidden,
            order == drawing_order(kind, centers@),
            forall|step: int|
                0 <= step < 6 ==> (#[trigger] steps[step]).0 == (kind_start(kind) + step) % 6
                    && steps[step].1 == kind_color(kind, step),
            forall|step: int| i <= step < 6 ==> #[trigger] paint[step] is None,
            forall|step: int|
                0 <= step < i ==> #[trigger] paint[step] == if first_claim(
                    old(state).triangles_drawn@,
                    order,
                    step,
                ) {
                    Some(
                        (
                            ((kind_start(kind) + step) % 6) as u8,
                            KIND_PALETTE[palette_index(kind_color(kind, step))],
                        ),
                    )
                } else {
                    None
                },
            state.triangles_drawn@ == drawn_with(old(state).triangles_drawn@, order, i as int),
            state.buf == old(state).buf,
            state.hexagon_map == old(state).hexagon_map,
            state.modifiable_hexagons == old(state).modifiable_hexagons,
            state.colors == old(state).colors,
        decreases 6 - i,
    {
        let ghost before = state.triangles_drawn@;
        let (point, color) = steps[i];
        if state.claim_triangle(centers[point as usize]) {
            paint[i] = Some((point, color.pick(&KIND_PALETTE)));
        }
        proof {
            let drawn = old(state).triangles_drawn@;
            assert(order[i as int] == centers@[point as int]);
            assert(first_claim(drawn, order, i as int) <==> !before.contains(order[i as int]));
            assert(state.triangles_drawn@ =~= drawn_with(drawn, order, i + 1)) by {
                assert forall|key: Key|
                    state.triangles_drawn@.contains(key) <==> drawn_with(
                        drawn,
                        order,
                        i + 1,
                    ).contains(key) by {
                    if key == order[i as int] {
                        assert(0 <= i < i + 1 && order[i as int] == key);
                    }
                }
            }
        }
        i += 1;
    }
    paint
}

} // verus!

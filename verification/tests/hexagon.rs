use hex_tiling::hexagon::{
    Hexagon, HexagonColor, HEX_EDGE1, HEX_EDGE2, HEX_EDGE3, HEX_FILL1, HEX_FILL2, HEX_FILL3,
    HEX_INSIDE, HEX_OUTSIDE,
};

const A: HexagonColor = HexagonColor::Color1;
const B: HexagonColor = HexagonColor::Color2;
const C: HexagonColor = HexagonColor::Color3;

// A pattern with a different colour sequence on every side, so that a wrong
// source slot shows.
const PROBE: [HexagonColor; 6] = [A, B, C, C, B, A];

fn merged(tiles: [HexagonColor; 6], side: u8, pattern: &[HexagonColor; 6]) -> [HexagonColor; 6] {
    let mut hex = Hexagon::new(tiles);
    hex.change_state(side, pattern);
    hex.tiles
}

#[test]
fn new_keeps_the_tiles() {
    assert_eq!(Hexagon::new(HEX_EDGE2).tiles, [A, A, B, B, B, A]);
}

#[test]
fn named_patterns_have_their_colours() {
    assert_eq!(HEX_INSIDE, [A, A, B, B, C, C]);
    assert_eq!(HEX_OUTSIDE, [B, C, C, A, A, B]);
    assert_eq!(HEX_FILL1, [A; 6]);
    assert_eq!(HEX_FILL2, [B; 6]);
    assert_eq!(HEX_FILL3, [C; 6]);
    assert_eq!(HEX_EDGE1, [A, A, A, C, C, C]);
    assert_eq!(HEX_EDGE2, [A, A, B, B, B, A]);
    assert_eq!(HEX_EDGE3, [C, B, B, B, C, C]);
}

#[test]
fn change_state_side_0_writes_slots_5_and_0() {
    // first = 5, second = 0: slot 0 takes pattern[2], slot 5 takes pattern[3].
    assert_eq!(merged(HEX_FILL1, 0, &HEX_INSIDE), [B, A, A, A, A, B]);
    assert_eq!(merged(HEX_FILL2, 0, &PROBE), [C, B, B, B, B, C]);
}

#[test]
fn change_state_side_1_writes_slots_1_and_0() {
    // slot 0 takes pattern[4], slot 1 takes pattern[3].
    assert_eq!(merged(HEX_FILL1, 1, &HEX_INSIDE), [C, B, A, A, A, A]);
    assert_eq!(merged(HEX_FILL1, 1, &PROBE), [B, C, A, A, A, A]);
}

#[test]
fn change_state_side_2_writes_slots_2_and_1() {
    // slot 1 takes pattern[5], slot 2 takes pattern[4].
    assert_eq!(merged(HEX_FILL1, 2, &HEX_INSIDE), [A, C, C, A, A, A]);
    assert_eq!(merged(HEX_FILL3, 2, &PROBE), [C, A, B, C, C, C]);
}

#[test]
fn change_state_side_3_writes_slots_3_and_2() {
    // slot 2 takes pattern[0], slot 3 takes pattern[5].
    assert_eq!(merged(HEX_FILL3, 3, &HEX_INSIDE), [C, C, A, C, C, C]);
    assert_eq!(merged(HEX_FILL3, 3, &HEX_OUTSIDE), [C, C, B, B, C, C]);
}

#[test]
fn change_state_side_4_writes_slots_4_and_3() {
    // slot 3 takes pattern[1], slot 4 takes pattern[0].
    assert_eq!(merged(HEX_FILL3, 4, &HEX_INSIDE), [C, C, C, A, A, C]);
    assert_eq!(merged(HEX_FILL1, 4, &HEX_OUTSIDE), [A, A, A, C, B, A]);
}

#[test]
fn change_state_side_5_writes_slots_5_and_4() {
    // slot 4 takes pattern[2], slot 5 takes pattern[1].
    assert_eq!(merged(HEX_FILL3, 5, &HEX_INSIDE), [C, C, C, C, B, A]);
    assert_eq!(merged(HEX_FILL1, 5, &PROBE), [A, A, A, A, C, B]);
}

#[test]
fn change_state_keeps_the_other_four_slots() {
    for side in 0..6u8 {
        let (first, second) = if side == 0 { (5usize, 0usize) } else { (side as usize, side as usize - 1) };
        let after = merged(PROBE, side, &HEX_OUTSIDE);
        for slot in 0..6 {
            if slot != first && slot != second {
                assert_eq!(after[slot], PROBE[slot]);
            }
        }
        assert_eq!(after[second], HEX_OUTSIDE[(first + 3) % 6]);
        assert_eq!(after[first], HEX_OUTSIDE[(second + 3) % 6]);
    }
}

#[test]
fn edge_cells_next_to_a_flipped_origin_become_inside() {
    // The ray cells face the origin with sides 3, 5 and 1.
    assert_eq!(merged(HEX_EDGE1, 3, &HEX_OUTSIDE), HEX_INSIDE);
    assert_eq!(merged(HEX_EDGE2, 5, &HEX_OUTSIDE), HEX_INSIDE);
    assert_eq!(merged(HEX_EDGE3, 1, &HEX_OUTSIDE), HEX_INSIDE);
}

#[test]
fn is_inside_is_exact_equality() {
    assert!(Hexagon::new(HEX_INSIDE).is_inside());
    assert!(!Hexagon::new(HEX_OUTSIDE).is_inside());
    assert!(!Hexagon::new(HEX_FILL1).is_inside());
    // one slot off, the last one
    assert!(!Hexagon::new([A, A, B, B, C, B]).is_inside());
    assert!(!Hexagon::new([B, A, B, B, C, C]).is_inside());
}

#[test]
fn is_outside_is_exact_equality() {
    assert!(Hexagon::new(HEX_OUTSIDE).is_outside());
    assert!(!Hexagon::new(HEX_INSIDE).is_outside());
    assert!(!Hexagon::new(HEX_EDGE3).is_outside());
    assert!(!Hexagon::new([B, C, C, A, A, A]).is_outside());
    assert!(!Hexagon::new([A, C, C, A, A, B]).is_outside());
}

#[test]
fn absorbing_twice_on_one_side_shows_the_last_pattern() {
    for side in 0..6u8 {
        let twice = merged(merged(PROBE, side, &HEX_OUTSIDE), side, &HEX_INSIDE);
        assert_eq!(twice, merged(PROBE, side, &HEX_INSIDE));
    }
}

#[test]
fn flip_pair_restores_a_tile_that_agreed_with_inside() {
    for side in 0..6u8 {
        // A tile that has absorbed INSIDE on this side agrees with it there.
        let agreed = merged(PROBE, side, &HEX_INSIDE);
        let back = merged(merged(agreed, side, &HEX_OUTSIDE), side, &HEX_INSIDE);
        assert_eq!(back, agreed);
    }
}

#[test]
fn flip_pair_does_not_restore_a_tile_that_differed() {
    // FILL2 on side 0 holds B in slots 0 and 5; INSIDE writes B and B there,
    // so it agrees; on side 3 INSIDE writes A into slot 2 and C into slot 3.
    let back = merged(merged(HEX_FILL2, 3, &HEX_OUTSIDE), 3, &HEX_INSIDE);
    assert_eq!(back, [B, B, A, C, B, B]);
    assert_ne!(back, HEX_FILL2);
    let same = merged(merged(HEX_FILL2, 0, &HEX_OUTSIDE), 0, &HEX_INSIDE);
    assert_eq!(same, HEX_FILL2);
}

#[test]
fn pick_maps_each_colour_to_its_place_in_the_palette() {
    let colors = [[1, 2, 3], [4, 5, 6], [7, 8, 9]];
    assert_eq!(A.pick(&colors), [1, 2, 3]);
    assert_eq!(B.pick(&colors), [4, 5, 6]);
    assert_eq!(C.pick(&colors), [7, 8, 9]);
}

#[test]
fn slot_color_follows_the_tile() {
    let colors = [[225, 117, 46], [114, 225, 105], [105, 154, 225]];
    let hex = Hexagon::new(HEX_OUTSIDE);
    assert_eq!(hex.slot_color(0, &colors), [114, 225, 105]);
    assert_eq!(hex.slot_color(1, &colors), [105, 154, 225]);
    assert_eq!(hex.slot_color(3, &colors), [225, 117, 46]);
    assert_eq!(hex.slot_color(5, &colors), [114, 225, 105]);
}

use hex_tiling::hexagon::{Hexagon, HEX_EDGE1, HEX_FILL2, HEX_INSIDE, HEX_OUTSIDE};
use hex_tiling::key::{decode_key, encode_key};
use hex_tiling::lattice::{KeySet, Lattice};

#[test]
fn encode_key_puts_the_first_coordinate_high() {
    assert_eq!(encode_key((0, 0)), 0x8000_0000_8000_0000);
    assert_eq!(encode_key((i32::MIN, i32::MIN)), 0);
    assert_eq!(encode_key((i32::MAX, i32::MAX)), u64::MAX);
    assert_eq!(encode_key((1, -1)), 0x8000_0001_7fff_ffff);
    assert_eq!(encode_key((-57, 50)), 0x7fff_ffc7_8000_0032);
}

#[test]
fn decode_key_undoes_encode_key() {
    let keys = [
        (0, 0),
        (50, -28),
        (-50, 28),
        (0, -57),
        (i32::MIN, i32::MAX),
        (i32::MAX, i32::MIN),
        (-1, -1),
    ];
    for key in keys {
        assert_eq!(decode_key(encode_key(key)), key);
    }
    assert_eq!(decode_key(0), (i32::MIN, i32::MIN));
    assert_eq!(decode_key(u64::MAX), (i32::MAX, i32::MAX));
}

#[test]
fn different_keys_have_different_codes() {
    assert_ne!(encode_key((1, 0)), encode_key((0, 1)));
    assert_ne!(encode_key((-1, 0)), encode_key((0, -1)));
    assert_ne!(encode_key((0, 0)), encode_key((0, 1)));
    assert_ne!(encode_key((1, 2)), encode_key((2, 1)));
}

#[test]
fn key_set_starts_empty() {
    let set = KeySet::new();
    assert!(set.is_empty());
    assert_eq!(set.len(), 0);
    assert!(!set.contains((0, 0)));
}

#[test]
fn key_set_insert_reports_new_keys_once() {
    let mut set = KeySet::new();
    assert!(set.insert((3, -4)));
    assert!(!set.insert((3, -4)));
    assert!(set.insert((-4, 3)));
    assert_eq!(set.len(), 2);
    assert!(set.contains((3, -4)));
    assert!(set.contains((-4, 3)));
    assert!(!set.contains((3, 4)));
    assert!(!set.is_empty());
}

#[test]
fn key_set_remove_reports_presence() {
    let mut set = KeySet::new();
    set.insert((1, 1));
    set.insert((2, 2));
    assert!(set.remove((1, 1)));
    assert!(!set.remove((1, 1)));
    assert!(!set.remove((9, 9)));
    assert_eq!(set.len(), 1);
    assert!(set.contains((2, 2)));
    assert!(!set.contains((1, 1)));
}

#[test]
fn key_set_nth_walks_every_key_once() {
    let mut set = KeySet::new();
    let keys = [(0, 0), (50, -28), (-50, 28), (0, -57), (7, 7)];
    for key in keys {
        set.insert(key);
    }
    let mut seen = Vec::new();
    for n in 0..set.len() {
        let key = set.nth(n);
        assert!(set.contains(key));
        assert!(!seen.contains(&key));
        seen.push(key);
    }
    assert_eq!(seen.len(), 5);
    for key in keys {
        assert!(seen.contains(&key));
    }
}

#[test]
fn key_set_nth_of_a_single_key() {
    let mut set = KeySet::new();
    set.insert((-3, 8));
    assert_eq!(set.nth(0), (-3, 8));
}

#[test]
fn lattice_starts_empty() {
    let lattice = Lattice::new();
    assert_eq!(lattice.len(), 0);
    assert!(!lattice.contains_key((0, 0)));
    assert!(lattice.get((0, 0)).is_none());
    assert!(lattice.entries().is_empty());
}

#[test]
fn lattice_insert_then_get() {
    let mut lattice = Lattice::new();
    lattice.insert((0, 0), Hexagon::new(HEX_INSIDE));
    lattice.insert((50, 28), Hexagon::new(HEX_EDGE1));
    assert_eq!(lattice.len(), 2);
    assert!(lattice.contains_key((50, 28)));
    assert!(!lattice.contains_key((28, 50)));
    assert_eq!(lattice.get((0, 0)).unwrap().tiles, HEX_INSIDE);
    assert_eq!(lattice.get((50, 28)).unwrap().tiles, HEX_EDGE1);
    assert!(lattice.get((28, 50)).is_none());
}

#[test]
fn lattice_insert_replaces_the_tile_under_a_key() {
    let mut lattice = Lattice::new();
    lattice.insert((4, 4), Hexagon::new(HEX_INSIDE));
    lattice.insert((4, 4), Hexagon::new(HEX_OUTSIDE));
    assert_eq!(lattice.len(), 1);
    assert_eq!(lattice.get((4, 4)).unwrap().tiles, HEX_OUTSIDE);
}

#[test]
fn lattice_keeps_keys_apart_that_differ_in_one_coordinate() {
    let mut lattice = Lattice::new();
    lattice.insert((1, 0), Hexagon::new(HEX_INSIDE));
    lattice.insert((0, 1), Hexagon::new(HEX_OUTSIDE));
    lattice.insert((-1, 0), Hexagon::new(HEX_FILL2));
    assert_eq!(lattice.len(), 3);
    assert_eq!(lattice.get((1, 0)).unwrap().tiles, HEX_INSIDE);
    assert_eq!(lattice.get((0, 1)).unwrap().tiles, HEX_OUTSIDE);
    assert_eq!(lattice.get((-1, 0)).unwrap().tiles, HEX_FILL2);
}

#[test]
fn lattice_entries_lists_every_cell_once() {
    let mut lattice = Lattice::new();
    lattice.insert((0, 0), Hexagon::new(HEX_INSIDE));
    lattice.insert((0, -57), Hexagon::new(HEX_EDGE1));
    lattice.insert((50, -28), Hexagon::new(HEX_FILL2));
    let entries = lattice.entries();
    assert_eq!(entries.len(), 3);
    for (key, tiles) in [((0, 0), HEX_INSIDE), ((0, -57), HEX_EDGE1), ((50, -28), HEX_FILL2)] {
        let found: Vec<&((i32, i32), Hexagon)> =
            entries.iter().filter(|entry| entry.0 == key).collect();
        assert_eq!(found.len(), 1);
        assert_eq!(found[0].1.tiles, tiles);
    }
}

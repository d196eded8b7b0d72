use hex_tiling::canvas::PixelBuffer;
use hex_tiling::state::AppState;

fn sample(raw: &[u8], width: u32, x: u32, y: u32) -> [u8; 3] {
    let at = ((y * width + x) * 3) as usize;
    [raw[at], raw[at + 1], raw[at + 2]]
}

#[test]
fn new_buffer_has_its_size_and_background() {
    let buf = PixelBuffer::new(4, 3, [255, 254, 253]);
    assert_eq!(buf.width(), 4);
    assert_eq!(buf.height(), 3);
    let raw = buf.into_raw();
    assert_eq!(raw.len(), 36);
    for y in 0..3 {
        for x in 0..4 {
            assert_eq!(sample(&raw, 4, x, y), [255, 254, 253]);
        }
    }
}

#[test]
fn empty_buffer_has_no_samples() {
    let buf = PixelBuffer::new(0, 5, [1, 2, 3]);
    assert_eq!(buf.width(), 0);
    assert_eq!(buf.height(), 5);
    assert!(buf.into_raw().is_empty());
}

#[test]
fn put_paints_one_pixel() {
    let mut buf = PixelBuffer::new(4, 3, [0, 0, 0]);
    assert!(buf.put(2, 1, [10, 20, 30]));
    assert_eq!(buf.width(), 4);
    assert_eq!(buf.height(), 3);
    let raw = buf.into_raw();
    for y in 0..3 {
        for x in 0..4 {
            let expected = if (x, y) == (2, 1) { [10, 20, 30] } else { [0, 0, 0] };
            assert_eq!(sample(&raw, 4, x, y), expected);
        }
    }
}

#[test]
fn raw_samples_are_row_major() {
    let mut buf = PixelBuffer::new(3, 2, [0, 0, 0]);
    buf.put(1, 0, [1, 2, 3]);
    buf.put(0, 1, [4, 5, 6]);
    let raw = buf.into_raw();
    assert_eq!(
        raw,
        vec![0, 0, 0, 1, 2, 3, 0, 0, 0, 4, 5, 6, 0, 0, 0, 0, 0, 0]
    );
}

#[test]
fn put_overwrites() {
    let mut buf = PixelBuffer::new(2, 2, [9, 9, 9]);
    buf.put(1, 1, [1, 1, 1]);
    buf.put(1, 1, [2, 2, 2]);
    let raw = buf.into_raw();
    assert_eq!(sample(&raw, 2, 1, 1), [2, 2, 2]);
    assert_eq!(sample(&raw, 2, 0, 1), [9, 9, 9]);
}

#[test]
fn put_outside_the_buffer_is_passed_over() {
    let mut buf = PixelBuffer::new(4, 3, [7, 7, 7]);
    assert!(!buf.put(4, 0, [1, 1, 1]));
    assert!(!buf.put(0, 3, [1, 1, 1]));
    assert!(!buf.put(u32::MAX, u32::MAX, [1, 1, 1]));
    assert!(buf.put(3, 2, [1, 1, 1]));
    let raw = buf.into_raw();
    assert_eq!(raw.len(), 36);
    for y in 0..3 {
        for x in 0..4 {
            let expected = if (x, y) == (3, 2) { [1, 1, 1] } else { [7, 7, 7] };
            assert_eq!(sample(&raw, 4, x, y), expected);
        }
    }
}

#[test]
fn a_new_state_is_empty() {
    let colors = [[225, 117, 46], [114, 225, 105], [105, 154, 225]];
    let state = AppState::new(PixelBuffer::new(2, 2, [255, 255, 255]), colors);
    assert_eq!(state.colors, colors);
    assert_eq!(state.hexagon_map.len(), 0);
    assert!(state.triangles_drawn.is_empty());
    assert!(state.modifiable_hexagons.is_empty());
    assert_eq!(state.buf.width(), 2);
}

#[test]
fn a_triangle_is_claimed_once() {
    let mut state = AppState::new(PixelBuffer::new(1, 1, [0, 0, 0]), [[0; 3]; 3]);
    assert!(state.claim_triangle((25, 28)));
    assert!(!state.claim_triangle((25, 28)));
    assert!(state.claim_triangle((25, -28)));
    assert!(!state.claim_triangle((25, 28)));
    assert_eq!(state.triangles_drawn.len(), 2);
    assert!(state.triangles_drawn.contains((25, 28)));
    assert!(state.triangles_drawn.contains((25, -28)));
}

#[test]
fn the_drawn_set_only_grows() {
    let mut state = AppState::new(PixelBuffer::new(1, 1, [0, 0, 0]), [[0; 3]; 3]);
    let keys = [(0, 0), (1, 0), (0, 0), (2, 5), (1, 0)];
    let mut seen = Vec::new();
    for key in keys {
        state.claim_triangle(key);
        seen.push(key);
        for earlier in &seen {
            assert!(state.triangles_drawn.contains(*earlier));
        }
    }
    assert_eq!(state.triangles_drawn.len(), 3);
}

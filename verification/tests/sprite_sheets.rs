use pawdesk::sprite::{pack_frames, SpriteSheet};

fn frame(tag: u8, w: u32, h: u32) -> Vec<u8> {
    (0..w * h * 4).map(|i| tag.wrapping_mul(16).wrapping_add(i as u8)).collect()
}

#[test]
fn packed_frames_read_back() {
    let frames = vec![frame(1, 2, 3), frame(2, 2, 3), frame(3, 2, 3)];
    let sheet = pack_frames(&frames, 2, 3);
    assert_eq!((sheet.sheet_width, sheet.sheet_height, sheet.frame_count), (6, 3, 3));
    assert_eq!(sheet.sheet_rgba.len(), 6 * 3 * 4);
    for (i, f) in frames.iter().enumerate() {
        assert_eq!(&sheet.frame_rgba(i as u32), f);
    }
    // Frame numbers wrap around the frame count.
    assert_eq!(sheet.frame_rgba(4), frames[1]);
}

#[test]
fn packed_strip_layout() {
    // Two 1×2 frames: the strip is 2×2, frame 0 in column 0.
    let a = vec![1, 1, 1, 1, 2, 2, 2, 2];
    let b = vec![3, 3, 3, 3, 4, 4, 4, 4];
    let sheet = pack_frames(&vec![a, b], 1, 2);
    assert_eq!(sheet.sheet_rgba, vec![1, 1, 1, 1, 3, 3, 3, 3, 2, 2, 2, 2, 4, 4, 4, 4]);
}

#[test]
fn longer_frame_buffers_use_their_leading_rows() {
    let mut a = frame(5, 2, 2);
    a.extend_from_slice(&[9; 8]);
    let sheet = pack_frames(&vec![a.clone()], 2, 2);
    assert_eq!(sheet.frame_rgba(0), a[..16].to_vec());
    let one = SpriteSheet {
        frame_width: 1,
        frame_height: 1,
        frame_count: 1,
        sheet_rgba: vec![7, 8, 9, 10],
        sheet_width: 1,
        sheet_height: 1,
    };
    assert_eq!(one.frame_rgba(12), vec![7, 8, 9, 10]);
}

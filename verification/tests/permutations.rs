//! Exact quarter-turn permutations, decimation, and Scale2x upscaling.

use rotsprite::rotate::{downscale, rotate180, rotate270, rotate90};
use rotsprite::scale2x::scale2x;

#[test]
fn rotation_90_deg() {
    let (w, h, new) = rotate90(&vec![1, 2, 3, 4, 5, 6], 3, 2);
    assert_eq!(w, 2);
    assert_eq!(h, 3);
    assert_eq!(new, [4, 1, 5, 2, 6, 3]);
}

#[test]
fn rotation_180_deg() {
    let (w, h, new) = rotate180(&vec![1, 2, 3, 4, 5, 6], 3, 2);
    assert_eq!(w, 3);
    assert_eq!(h, 2);
    assert_eq!(new, [6, 5, 4, 3, 2, 1]);
}

#[test]
fn rotation_270_deg() {
    let (w, h, new) = rotate270(&vec![1, 2, 3, 4, 5, 6], 3, 2);
    assert_eq!(w, 2);
    assert_eq!(h, 3);
    assert_eq!(new, [3, 6, 2, 5, 1, 4]);
}

#[test]
fn downscale_keeps_top_left_of_each_block() {
    let buf = vec![1, 2, 3, 4, 5, 6, 7, 8, 9, 10, 11, 12, 13, 14, 15, 16];
    let (w, h, new) = downscale(&buf, 4, 4, 2);
    assert_eq!(w, 2);
    assert_eq!(h, 2);
    assert_eq!(new, [1, 3, 9, 11]);
}

#[test]
fn downscale_identity_at_factor_one() {
    let buf = vec![5, 6, 7, 8, 9, 10];
    let (w, h, new) = downscale(&buf, 3, 2, 1);
    assert_eq!(w, 3);
    assert_eq!(h, 2);
    assert_eq!(new, buf);
}

#[test]
fn scale2x_test() {
    let buf = vec![1, 2, 3, 4];
    let (w, h, new) = scale2x(&buf, 2, 2);
    assert_eq!(w, 4);
    assert_eq!(h, 4);
    assert_eq!(new, [1, 1, 2, 2, 1, 1, 2, 2, 3, 3, 4, 4, 3, 3, 4, 4]);

    let buf = vec![1, 2, 3, 4, 5, 6, 7, 8, 9];
    let (_, _, new) = scale2x(&buf, 3, 3);
    let mut cmp = Vec::<i32>::new();
    cmp.extend([1, 1, 2, 2, 3, 3].iter());
    cmp.extend([1, 1, 2, 2, 3, 3].iter());
    cmp.extend([4, 4, 5, 5, 6, 6].iter());
    cmp.extend([4, 4, 5, 5, 6, 6].iter());
    cmp.extend([7, 7, 8, 8, 9, 9].iter());
    cmp.extend([7, 7, 8, 8, 9, 9].iter());
    assert_eq!(new, cmp);

    let buf = vec![1, 2, 3, 4, 5, 6];
    let (_, _, new) = scale2x(&buf, 3, 2);
    assert_eq!(
        new,
        [1, 1, 2, 2, 3, 3, 1, 1, 2, 2, 3, 3, 4, 4, 5, 5, 6, 6, 4, 4, 5, 5, 6, 6]
    );
}

#[test]
fn scale2x_detects_edges() {
    // A lone bright pixel surrounded by a diagonal edge: corners that join two
    // equal neighbors copy the neighbor instead of the center.
    let buf = vec![
        1, 1, 2, //
        1, 5, 2, //
        2, 2, 2,
    ];
    let (w, h, new) = scale2x(&buf, 3, 3);
    assert_eq!(w, 6);
    assert_eq!(h, 6);
    // The center pixel's 2x2 block: top-left joins the 1s, bottom-right joins
    // the 2s, and the off corners keep the center color.
    assert_eq!(new[2 * 6 + 2], 1);
    assert_eq!(new[2 * 6 + 3], 5);
    assert_eq!(new[3 * 6 + 2], 5);
    assert_eq!(new[3 * 6 + 3], 2);
}

#[test]
fn scale2x_introduces_no_new_colors() {
    let buf = vec![
        3, 3, 7, 7, //
        3, 9, 7, 7, //
        9, 9, 9, 7,
    ];
    let (_, _, new) = scale2x(&buf, 4, 3);
    for p in &new {
        assert!(buf.contains(p));
    }
}

#[test]
fn scale2x_keeps_uniform_buffers_uniform() {
    let buf = vec![8; 6];
    let (w, h, new) = scale2x(&buf, 3, 2);
    assert_eq!(w, 6);
    assert_eq!(h, 4);
    assert_eq!(new.len(), 24);
    for p in &new {
        assert_eq!(*p, 8);
    }
}

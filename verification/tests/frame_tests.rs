use laphone::frame::{frame_fits, repack_tight, YuvFrame};

fn sample() -> YuvFrame {
    // 4x2 picture, luma stride 6, chroma stride 3
    YuvFrame {
        width: 4,
        height: 2,
        stride_y: 6,
        stride_u: 3,
        stride_v: 3,
        y: vec![1, 2, 3, 4, 90, 91, 5, 6, 7, 8, 92, 93],
        u: vec![10, 11, 99],
        v: vec![20, 21, 98],
    }
}

#[test]
fn repacks_rows_without_padding() {
    let f = sample();
    assert!(frame_fits(&f));
    let mut tight = Vec::new();
    repack_tight(&f, &mut tight);
    assert_eq!(tight, vec![1, 2, 3, 4, 5, 6, 7, 8, 10, 11, 20, 21]);
}

#[test]
fn reuses_a_buffer_of_the_right_size() {
    let f = sample();
    let mut tight = vec![0xee; 12];
    repack_tight(&f, &mut tight);
    assert_eq!(tight, vec![1, 2, 3, 4, 5, 6, 7, 8, 10, 11, 20, 21]);
}

#[test]
fn odd_size_leaves_uncovered_bytes() {
    // 3x3: chroma rows 1 of width 1, chroma planes 2 bytes each
    let f = YuvFrame {
        width: 3,
        height: 3,
        stride_y: 3,
        stride_u: 1,
        stride_v: 1,
        y: vec![1, 2, 3, 4, 5, 6, 7, 8, 9],
        u: vec![10],
        v: vec![20],
    };
    assert!(frame_fits(&f));
    let mut tight = vec![0xaa; 13];
    repack_tight(&f, &mut tight);
    assert_eq!(tight, vec![1, 2, 3, 4, 5, 6, 7, 8, 9, 10, 0xaa, 20, 0xaa]);
    let mut fresh = Vec::new();
    repack_tight(&f, &mut fresh);
    assert_eq!(fresh, vec![1, 2, 3, 4, 5, 6, 7, 8, 9, 10, 0, 20, 0]);
}

#[test]
fn short_planes_do_not_fit() {
    let mut f = sample();
    f.y.truncate(9);
    assert!(!frame_fits(&f));
    let mut g = sample();
    g.v.truncate(1);
    assert!(!frame_fits(&g));
    let mut h = sample();
    h.width = usize::MAX;
    assert!(!frame_fits(&h));
}

use fractal_core::utils::colour_map;

#[test]
fn entry_zero_is_white_for_every_channel() {
    let t = colour_map(512, (2, 1, 3), 192);
    assert_eq!(t.len(), 512);
    assert_eq!(t[0].r, 255);
    assert_eq!(t[0].g, 255);
    assert_eq!(t[0].b, 255);
    assert_eq!(t[0].a, 192);
}

#[test]
fn entry_zero_is_white_for_other_shapes() {
    for &(n, cycles, alpha) in &[
        (2usize, (3usize, 3usize, 1usize), 255u8),
        (16, (2, 2, 2), 7),
        (1024, (3, 3, 1), 255),
    ] {
        let t = colour_map(n, cycles, alpha);
        assert_eq!(t.len(), n);
        assert_eq!(t[0].r, 255);
        assert_eq!(t[0].g, 255);
        assert_eq!(t[0].b, 255);
        assert_eq!(t[0].a, alpha);
    }
}

#[test]
fn last_entry_exact_values() {
    // at the last index the angle is m * Pi exactly: an odd multiplier gives
    // cosine -1 (channel 0), an even one gives cosine 1 (channel 255)
    let t = colour_map(512, (2, 1, 3), 192);
    assert_eq!(t[511].r, 255);
    assert_eq!(t[511].g, 0);
    assert_eq!(t[511].b, 0);
    assert_eq!(t[511].a, 192);
}

#[test]
fn alpha_is_constant_over_the_table() {
    let t = colour_map(64, (3, 3, 1), 17);
    for e in &t {
        assert_eq!(e.a, 17);
    }
}

#[test]
fn channels_stay_within_byte_range_and_table_is_deterministic() {
    let t1 = colour_map(256, (3, 3, 1), 255);
    let t2 = colour_map(256, (3, 3, 1), 255);
    assert_eq!(t1.len(), t2.len());
    for i in 0..t1.len() {
        assert_eq!(t1[i].r, t2[i].r);
        assert_eq!(t1[i].g, t2[i].g);
        assert_eq!(t1[i].b, t2[i].b);
        assert_eq!(t1[i].a, t2[i].a);
    }
}

use fractal_core::argand::{Cplx, ZPlane};
use fractal_core::FX_ONE;

fn square_plane(half: i64, cells: u32) -> ZPlane {
    ZPlane::new(
        Cplx { re: -half, im: -half },
        Cplx { re: half, im: half },
        (cells, cells),
    )
}

#[test]
fn index_round_trip() {
    let p = square_plane(2 * FX_ONE, 8);
    for row in 0..8u32 {
        for col in 0..8u32 {
            let idx = p.index_from_rc((row, col));
            assert_eq!(idx, (row * 8 + col) as usize);
            assert_eq!(p.rc_from_index(idx), (row, col));
        }
    }
}

#[test]
fn point_round_trip_is_exact() {
    let p = square_plane(2 * FX_ONE, 8);
    for row in 0..8u32 {
        for col in 0..8u32 {
            let z = p.point_from_rc((row, col));
            assert_eq!(p.rc_from_point(&z), (row, col));
        }
    }
}

#[test]
fn point_round_trip_asymmetric_window() {
    let p = ZPlane::new(
        Cplx { re: -2 * FX_ONE, im: -(5 * FX_ONE / 4) },
        Cplx { re: FX_ONE / 2, im: 5 * FX_ONE / 4 },
        (4, 4),
    );
    for row in 0..4u32 {
        for col in 0..4u32 {
            let z = p.point_from_rc((row, col));
            assert_eq!(p.rc_from_point(&z), (row, col));
        }
    }
}

#[test]
fn corner_points_stay_inside_bounds() {
    let p = square_plane(2 * FX_ONE, 8);
    let z = p.point_from_rc((7, 7));
    assert!(z.re <= 2 * FX_ONE && z.im <= 2 * FX_ONE);
    let z0 = p.point_from_rc((0, 0));
    assert_eq!(z0.re, -2 * FX_ONE);
    assert_eq!(z0.im, -2 * FX_ONE);
}

#[test]
fn rc_from_point_saturates_below_at_zero() {
    let p = square_plane(2 * FX_ONE, 8);
    let far_low = Cplx { re: -3 * FX_ONE, im: -3 * FX_ONE };
    assert_eq!(p.rc_from_point(&far_low), (0, 0));
}

#[test]
fn index_near_point_clamps_high() {
    let p = square_plane(2 * FX_ONE, 8);
    // the exact top-right bound maps past the raster and must be clamped
    let top = Cplx { re: 2 * FX_ONE, im: 2 * FX_ONE };
    let idx = p.index_near_point(&top);
    assert_eq!(idx, 63);
}

use fractal_core::argand::Cplx;
use fractal_core::julia::Julia;
use fractal_core::mandel::Mandel;
use fractal_core::FX_ONE;

#[test]
fn mandel_standard_window_scenario() {
    // width=4, height=4, bounds (-2,-1.25)..(0.5,1.25), depth=50
    let m = Mandel::new(4, 4, 50);
    assert_eq!(m.z.zmin.re, -2 * FX_ONE);
    assert_eq!(m.z.zmax.re, FX_ONE / 2);
    assert_eq!(m.z.zmin.im, -(5 * FX_ONE / 4));
    assert_eq!(m.z.zmax.im, 5 * FX_ONE / 4);
    let cells = m.iterations();
    assert_eq!(cells.len(), 16);
    // the cell nearest (0,0) is interior: its count reaches the depth cap
    let idx = m.z.index_from_rc(m.z.rc_from_point(&Cplx { re: 0, im: 0 }));
    assert!(cells[idx] == 49 || cells[idx] == 50);
    // the corner cell has magnitude well beyond 2 and escapes fast
    assert!(cells[0] <= 10);
}

#[test]
fn mandel_redraw_reproduces_the_buffer() {
    let mut m = Mandel::new(8, 8, 40);
    let before = m.iterations();
    m.draw();
    assert_eq!(m.iterations(), before);
}

#[test]
fn mandel_zoom_halves_the_span_and_recenters() {
    let mut m = Mandel::new(8, 8, 20);
    let s0 = m.scale();
    let c = m.z.point_from_rc((4, 4));
    m.zoom(4, 4, 2 * FX_ONE);
    assert_eq!(m.scale(), s0 / 2);
    assert_eq!(m.z.zmin.re, c.re - s0 / 4);
    assert_eq!(m.z.zmax.re, c.re + s0 / 4);
    assert_eq!(m.z.size, (8, 8));
    // the buffer was recomputed for the new window
    assert_eq!(m.iterations().len(), 64);
}

#[test]
fn mandel_render_uses_the_colour_table_modulo_its_size() {
    let mut m = Mandel::new(4, 4, 50);
    m.render();
    let img = m.raw_image();
    assert_eq!(img.len(), 4 * 16);
    let cells = m.iterations();
    for i in 0..16usize {
        let e = m.cmap[(cells[i] as usize) % m.cmap.len()];
        assert_eq!(img[4 * i], e.r);
        assert_eq!(img[4 * i + 1], e.g);
        assert_eq!(img[4 * i + 2], e.b);
        assert_eq!(img[4 * i + 3], e.a);
    }
}

#[test]
fn mandel_midpoints() {
    let m = Mandel::new(8, 8, 20);
    assert_eq!(m.mid_r(), -2 * FX_ONE + (m.scale() / 2));
    assert_eq!(m.mid_i(), 0 - FX_ONE + FX_ONE); // symmetric imaginary window
    assert_eq!(m.mid_i(), (m.z.zmin.im + m.z.zmax.im) / 2);
}

#[test]
fn julia_origin_parameter_fills_the_disk() {
    // c = 0: the Julia set is the filled unit disk; interior cells report
    // the nominal maximum, far cells escape immediately
    let j = Julia::new(0, 0, 2 * FX_ONE, 8, 8);
    // cell (3,3) has seed (-0.5,-0.5), squared magnitude 1/2
    assert_eq!(j.cells[27], 254);
    // the corner seed (-2,-2) is past the escape threshold already
    assert_eq!(j.cells[0], 0);
}

#[test]
fn julia_buffer_is_point_symmetric() {
    let j = Julia::new(5033164, 2516582, 2 * FX_ONE, 8, 8);
    let n = j.cells.len();
    for i in 0..n {
        assert_eq!(j.cells[i], j.cells[n - 1 - i]);
    }
}

#[test]
fn julia_redraw_reproduces_the_buffer() {
    let mut j = Julia::new(5033164, 0, 2 * FX_ONE, 8, 8);
    let before = j.cells.clone();
    j.draw();
    assert_eq!(j.cells, before);
}

#[test]
fn julia_tick_moves_c_toward_the_attractor() {
    let mut j = Julia::new(0, 0, 2 * FX_ONE, 8, 8);
    j.set_attract(0, 0);
    assert_eq!(j.a, Cplx { re: -2 * FX_ONE, im: -2 * FX_ONE });
    j.tick();
    // one step of 0.01 of the distance: -2 * 0.01 in fixed point
    assert_eq!(j.c, Cplx { re: -335544, im: -335544 });
}

#[test]
fn julia_tick_clamps_c_into_bounds() {
    let mut j = Julia::new(-2 * FX_ONE, -2 * FX_ONE, 2 * FX_ONE, 8, 8);
    j.set_attract(0, 0);
    j.tick();
    assert!(j.c.re >= j.z.zmin.re && j.c.re <= j.z.zmax.re);
    assert!(j.c.im >= j.z.zmin.im && j.c.im <= j.z.zmax.im);
}

#[test]
fn julia_render_overlays_the_marker_on_the_locus() {
    let mut j = Julia::new(0, 0, 2 * FX_ONE, 8, 8);
    j.set_attract(0, 0);
    j.tick();
    j.render();
    let img = j.image_buffer();
    assert_eq!(img.len(), 4 * 64);
    // c = (-335544, -335544): its cell and the four neighbours are black
    let (row, col) = j.z.rc_from_point(&j.c);
    assert_eq!((row, col), (3, 3));
    for (r, c) in [(3u32, 3u32), (2, 3), (4, 3), (3, 2), (3, 4)] {
        let idx = (r * 8 + c) as usize;
        assert_eq!(&img[4 * idx..4 * idx + 4], &[0, 0, 0, 255]);
    }
    // a cell away from the marker carries its colour-table entry
    let far = 7 * 8 + 7;
    let e = j.cmap[j.cells[far] as usize];
    assert_eq!(img[4 * far], e.r);
    assert_eq!(img[4 * far + 3], e.a);
}

#[test]
fn julia_background_is_the_mandelbrot_render() {
    let j = Julia::new(0, 0, 2 * FX_ONE, 8, 8);
    let bg = j.background_buffer();
    assert_eq!(bg.len(), 4 * 64);
    // alpha of the background render is opaque
    for i in 0..64usize {
        assert_eq!(bg[4 * i + 3], 255);
    }
}

#[test]
fn julia_mask_reduces_depth_only_inside() {
    // c = 0 lies inside the Mandelbrot set, so the frame runs at the reduced
    // cap; every non-escaping cell still reports the nominal maximum
    let j = Julia::new(0, 0, 2 * FX_ONE, 8, 8);
    for &v in j.cells.iter() {
        assert!(v == 254 || v < 63);
    }
}

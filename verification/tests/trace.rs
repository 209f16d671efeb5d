use fractal_core::argand::Cplx;
use fractal_core::inverse::InverseJulia;
use fractal_core::FX_ONE;

#[test]
fn visit_total_matches_the_closed_form() {
    // 2 increments at the warmed-up point, 2 per node of the full binary
    // tree of 2^13 - 1 nodes, and 2 per refinement step
    let t = InverseJulia::new(5033164, 0, 2 * FX_ONE, 16, 16);
    let total: u64 = t.cells.iter().map(|&v| v as u64).sum();
    assert_eq!(total, 2 + 2 * (8192 - 1) + 2 * 100000);
    assert_eq!(total, 216384);
}

#[test]
fn visit_total_is_independent_of_parameters() {
    let t = InverseJulia::new(-2516582, 1677721, 2 * FX_ONE, 8, 8);
    let total: u64 = t.cells.iter().map(|&v| v as u64).sum();
    assert_eq!(total, 216384);
}

#[test]
fn redraw_reproduces_the_buffer() {
    let mut t = InverseJulia::new(5033164, 0, 2 * FX_ONE, 8, 8);
    let before = t.cells.clone();
    t.draw();
    assert_eq!(t.cells, before);
}

#[test]
fn render_is_opaque_greyscale_of_the_counts() {
    let mut t = InverseJulia::new(5033164, 0, 2 * FX_ONE, 8, 8);
    t.render();
    let img = t.image_buffer();
    assert_eq!(img.len(), 4 * 64);
    for i in 0..64usize {
        let g = if t.cells[i] > 255 { 255u8 } else { t.cells[i] as u8 };
        assert_eq!(img[4 * i], g);
        assert_eq!(img[4 * i + 1], g);
        assert_eq!(img[4 * i + 2], g);
        assert_eq!(img[4 * i + 3], 255);
    }
}

#[test]
fn tick_moves_c_like_the_escape_time_engine() {
    let mut t = InverseJulia::new(0, 0, 2 * FX_ONE, 8, 8);
    t.set_attract(0, 0);
    assert_eq!(t.a, Cplx { re: -2 * FX_ONE, im: -2 * FX_ONE });
    t.tick();
    assert_eq!(t.c, Cplx { re: -335544, im: -335544 });
    let total: u64 = t.cells.iter().map(|&v| v as u64).sum();
    assert_eq!(total, 216384);
}

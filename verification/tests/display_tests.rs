use librchip::display::{Display, DISPLAY_HEIGHT, DISPLAY_WIDTH};

fn at(d: &Display, x: usize, y: usize) -> u8 {
    d.pixels()[DISPLAY_WIDTH * y + x]
}

#[test]
fn new_display_is_blank() {
    let d = Display::new();
    assert_eq!(d.pixels().len(), DISPLAY_WIDTH * DISPLAY_HEIGHT);
    assert!(d.pixels().iter().all(|&p| p == 0));
}

#[test]
fn draw_sets_pixels_msb_first() {
    let mut d = Display::new();
    let collide = d.draw(0, 0, 1, &[0b1010_0001]);
    assert_eq!(collide, 0);
    assert_eq!(at(&d, 0, 0), 1);
    assert_eq!(at(&d, 1, 0), 0);
    assert_eq!(at(&d, 2, 0), 1);
    assert_eq!(at(&d, 7, 0), 1);
    assert_eq!(at(&d, 8, 0), 0);
}

#[test]
fn drawing_twice_restores_and_reports_collision() {
    let mut d = Display::new();
    let sprite = [0xF0u8, 0x90, 0x90, 0x90, 0xF0];
    let first = d.draw(12, 7, 5, &sprite);
    assert_eq!(first, 0);
    let second = d.draw(12, 7, 5, &sprite);
    assert_eq!(second, 1);
    assert!(d.pixels().iter().all(|&p| p == 0));
}

#[test]
fn second_draw_without_overlap_reports_none() {
    let mut d = Display::new();
    assert_eq!(d.draw(0, 0, 1, &[0xF0]), 0);
    // Disjoint bits on the same row: no set pixel is hit.
    assert_eq!(d.draw(0, 0, 1, &[0x0F]), 0);
    for x in 0..8 {
        assert_eq!(at(&d, x, 0), 1);
    }
}

#[test]
fn sprite_wraps_around_right_edge() {
    let mut d = Display::new();
    d.draw(60, 0, 1, &[0xFF]);
    for x in 60..64 {
        assert_eq!(at(&d, x, 0), 1);
    }
    for x in 0..4 {
        assert_eq!(at(&d, x, 0), 1);
    }
    for x in 4..60 {
        assert_eq!(at(&d, x, 0), 0);
    }
}

#[test]
fn sprite_wraps_around_bottom_edge() {
    let mut d = Display::new();
    d.draw(0, 31, 2, &[0x80, 0x80]);
    assert_eq!(at(&d, 0, 31), 1);
    assert_eq!(at(&d, 0, 0), 1);
    assert_eq!(at(&d, 0, 1), 0);
}

#[test]
fn coordinates_beyond_the_grid_wrap() {
    let mut d = Display::new();
    // x = 64 and y = 32 land back on the origin.
    d.draw(64, 32, 1, &[0x80]);
    assert_eq!(at(&d, 0, 0), 1);
}

#[test]
fn clear_blanks_everything() {
    let mut d = Display::new();
    d.draw(5, 5, 3, &[0xFF, 0xFF, 0xFF]);
    d.clear();
    assert!(d.pixels().iter().all(|&p| p == 0));
}

#[test]
fn collision_needs_overlap_of_set_bits() {
    let mut d = Display::new();
    d.draw(0, 0, 1, &[0b1000_0000]);
    // A sprite whose set bit misses the lit pixel does not collide.
    assert_eq!(d.draw(1, 0, 1, &[0b1000_0000]), 0);
    // One that hits it does.
    assert_eq!(d.draw(0, 0, 1, &[0b1000_0000]), 1);
}

use lib::machine::canvas::{can_draw_line, Canvas};

fn pixel(canvas: &Canvas, x: usize, y: usize, width: usize) -> [u8; 4] {
    let data = canvas.get_pixel_data();
    let i = 4 * (x + y * width);
    [data[i], data[i + 1], data[i + 2], data[i + 3]]
}

#[test]
fn new_canvas_is_white() {
    let canvas = Canvas::new(2, 3);
    assert_eq!(canvas.get_pixel_data().len(), 24);
    assert!(canvas.get_pixel_data().iter().all(|&b| b == 255));
}

#[test]
fn set_pixel_writes_one_opaque_pixel() {
    let mut canvas = Canvas::new(2, 2);
    canvas.set_pixel(1, 0, 10, 20, 30);
    assert_eq!(pixel(&canvas, 1, 0, 2), [10, 20, 30, 255]);
    assert_eq!(pixel(&canvas, 0, 0, 2), [255, 255, 255, 255]);
    assert_eq!(pixel(&canvas, 0, 1, 2), [255, 255, 255, 255]);
    assert_eq!(pixel(&canvas, 1, 1, 2), [255, 255, 255, 255]);
}

#[test]
fn set_pixel_outside_is_ignored() {
    let mut canvas = Canvas::new(2, 2);
    canvas.set_pixel(2, 0, 0, 0, 0);
    canvas.set_pixel(-1, 1, 0, 0, 0);
    canvas.set_pixel(0, 5, 0, 0, 0);
    assert!(canvas.get_pixel_data().iter().all(|&b| b == 255));
}

#[test]
fn clear_restores_white() {
    let mut canvas = Canvas::new(3, 1);
    canvas.set_pixel(0, 0, 1, 2, 3);
    canvas.clear();
    assert!(canvas.get_pixel_data().iter().all(|&b| b == 255));
}

#[test]
fn line_runs_from_its_first_to_its_last_point() {
    let mut canvas = Canvas::new(4, 4);
    canvas.draw_line(0, 0, 3, 1, 0, 0, 0);
    let black = [0, 0, 0, 255];
    let white = [255, 255, 255, 255];
    let painted = [(0, 0), (1, 0), (2, 1), (3, 1)];
    for y in 0..4 {
        for x in 0..4 {
            let expected = if painted.contains(&(x, y)) { black } else { white };
            assert_eq!(pixel(&canvas, x, y, 4), expected, "pixel ({}, {})", x, y);
        }
    }
}

#[test]
fn steep_and_backward_lines() {
    let mut canvas = Canvas::new(3, 4);
    canvas.draw_line(2, 3, 0, 0, 9, 9, 9);
    let painted = [(2, 3), (1, 2), (1, 1), (0, 0)];
    for y in 0..4 {
        for x in 0..3 {
            let expected = if painted.contains(&(x, y)) { [9, 9, 9, 255] } else { [255, 255, 255, 255] };
            assert_eq!(pixel(&canvas, x, y, 3), expected, "pixel ({}, {})", x, y);
        }
    }
}

#[test]
fn single_point_line() {
    let mut canvas = Canvas::new(2, 2);
    canvas.draw_line(1, 1, 1, 1, 5, 6, 7);
    assert_eq!(pixel(&canvas, 1, 1, 2), [5, 6, 7, 255]);
    assert_eq!(pixel(&canvas, 0, 0, 2), [255, 255, 255, 255]);
}

#[test]
fn line_clipped_by_the_edge() {
    let mut canvas = Canvas::new(2, 1);
    canvas.draw_line(-2, 0, 3, 0, 0, 0, 0);
    assert_eq!(pixel(&canvas, 0, 0, 2), [0, 0, 0, 255]);
    assert_eq!(pixel(&canvas, 1, 0, 2), [0, 0, 0, 255]);
}

#[test]
fn resize_keeps_the_buffer() {
    let mut canvas = Canvas::new(2, 2);
    canvas.resize(1, 1);
    assert_eq!(canvas.get_pixel_data().len(), 16);
}

#[test]
fn line_changes_only_its_pixels() {
    let mut canvas = Canvas::new(5, 5);
    canvas.set_pixel(4, 4, 1, 2, 3);
    let before = canvas.get_pixel_data().clone();
    canvas.draw_line(1, 1, 4, 3, 7, 8, 9);
    let painted = [(1, 1), (2, 2), (3, 2), (4, 3)];
    let after = canvas.get_pixel_data();
    for y in 0..5usize {
        for x in 0..5usize {
            let i = 4 * (x + 5 * y);
            if painted.contains(&(x, y)) {
                assert_eq!(&after[i..i + 4], &[7, 8, 9, 255]);
                assert!(1 <= x && x <= 4 && 1 <= y && y <= 3);
            } else {
                assert_eq!(&after[i..i + 4], &before[i..i + 4]);
            }
        }
    }
}

#[test]
fn line_drawability_follows_the_arithmetic() {
    assert!(can_draw_line(0, 0, 100, -50));
    assert!(can_draw_line(-5, 3, -5, 3));
    assert!(!can_draw_line(i32::MIN, 0, 1, 0));
    assert!(!can_draw_line(0, 0, i32::MAX, 0));
    assert!(can_draw_line(0, 0, i32::MAX - 1, 0));
    assert!(!can_draw_line(i32::MAX - 1, 0, i32::MAX, 0));
}

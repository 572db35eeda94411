use rustshot::canvas::{Canvas, Rgba};
use rustshot::raster::{
    bresenham_line, draw_arrow, draw_filled_circle_mut, draw_filled_rect_mut,
    draw_thick_hollow_circle_mut, draw_thick_hollow_rect_mut, draw_thick_line,
    draw_thick_line_with_rect, erase_thick_line, highlight_line,
};

const WHITE: Rgba = Rgba { r: 255, g: 255, b: 255, a: 255 };
const BLUE: Rgba = Rgba { r: 10, g: 20, b: 200, a: 255 };
const RED: Rgba = Rgba { r: 200, g: 0, b: 0, a: 255 };

fn solid(w: u32, h: u32, c: Rgba) -> Canvas {
    Canvas::create(w, h, c).expect("valid dimensions")
}

#[test]
fn bresenham_shallow_line_exact_points() {
    let pts = bresenham_line(0, 0, 3, 1);
    assert_eq!(pts, vec![(0, 0), (1, 0), (2, 1), (3, 1)]);
}

#[test]
fn bresenham_single_point() {
    let pts = bresenham_line(5, 7, 5, 7);
    assert_eq!(pts, vec![(5, 7)]);
}

#[test]
fn bresenham_endpoints_and_connectivity() {
    let pts = bresenham_line(20, 3, 2, 14);
    assert_eq!(*pts.first().unwrap(), (20, 3));
    assert_eq!(*pts.last().unwrap(), (2, 14));
    for w in pts.windows(2) {
        let dx = (w[0].0 as i64 - w[1].0 as i64).abs();
        let dy = (w[0].1 as i64 - w[1].1 as i64).abs();
        assert!(dx <= 1 && dy <= 1 && (dx, dy) != (0, 0));
    }
}

#[test]
fn bresenham_vertical_line() {
    let pts = bresenham_line(4, 2, 4, 6);
    assert_eq!(pts, vec![(4, 2), (4, 3), (4, 4), (4, 5), (4, 6)]);
}

#[test]
fn thick_line_covers_disk_and_leaves_the_rest() {
    // A 10 px thick vertical stroke on a white canvas.
    let mut c = solid(100, 100, WHITE);
    draw_thick_line(&mut c, 10, 10, 10, 50, 10, RED);
    // Every pixel of the disk around the interior line point (10, 30).
    for y in 20..=40u32 {
        for x in 0..=20u32 {
            let dx = x as i64 - 10;
            let dy = y as i64 - 30;
            if dx * dx + dy * dy <= 100 {
                assert_eq!(c.get_pixel(x, y), Some(RED), "disk pixel ({x},{y})");
            }
        }
    }
    // Far away nothing changed.
    assert_eq!(c.get_pixel(90, 90), Some(WHITE));
}

#[test]
fn filled_rect_exact_extent() {
    let mut c = solid(20, 20, WHITE);
    draw_filled_rect_mut(&mut c, 5, 6, 4, 3, BLUE);
    assert_eq!(c.get_pixel(5, 6), Some(BLUE));
    assert_eq!(c.get_pixel(8, 8), Some(BLUE));
    assert_eq!(c.get_pixel(9, 6), Some(WHITE));
    assert_eq!(c.get_pixel(5, 9), Some(WHITE));
    assert_eq!(c.get_pixel(4, 6), Some(WHITE));
}

#[test]
fn hollow_rect_is_a_border() {
    let mut c = solid(30, 30, WHITE);
    // Thickness 1 gives a border band two pixels wide.
    draw_thick_hollow_rect_mut(&mut c, 5, 5, 10, 10, 1, BLUE);
    assert_eq!(c.get_pixel(5, 5), Some(BLUE));
    assert_eq!(c.get_pixel(14, 14), Some(BLUE));
    assert_eq!(c.get_pixel(6, 10), Some(BLUE));
    // The interior is untouched.
    assert_eq!(c.get_pixel(9, 9), Some(WHITE));
    // Outside is untouched.
    assert_eq!(c.get_pixel(4, 5), Some(WHITE));
    assert_eq!(c.get_pixel(15, 15), Some(WHITE));
}

#[test]
fn filled_circle_is_the_disk() {
    let mut c = solid(21, 21, WHITE);
    draw_filled_circle_mut(&mut c, 10, 10, 5, BLUE);
    assert_eq!(c.get_pixel(10, 10), Some(BLUE));
    assert_eq!(c.get_pixel(15, 10), Some(BLUE));
    assert_eq!(c.get_pixel(13, 13), Some(BLUE));
    assert_eq!(c.get_pixel(16, 10), Some(WHITE));
    assert_eq!(c.get_pixel(14, 14), Some(WHITE));
}

#[test]
fn filled_circle_clips_offscreen_center() {
    let mut c = solid(10, 10, WHITE);
    draw_filled_circle_mut(&mut c, -2, 4, 4, BLUE);
    assert_eq!(c.get_pixel(0, 4), Some(BLUE));
    assert_eq!(c.get_pixel(2, 4), Some(BLUE));
    assert_eq!(c.get_pixel(3, 4), Some(WHITE));
}

#[test]
fn hollow_circle_is_a_ring() {
    let mut c = solid(41, 41, WHITE);
    draw_thick_hollow_circle_mut(&mut c, 20, 20, 10, 2, BLUE);
    // On the circle.
    assert_eq!(c.get_pixel(30, 20), Some(BLUE));
    assert_eq!(c.get_pixel(20, 10), Some(BLUE));
    // Within the stroke band.
    assert_eq!(c.get_pixel(28, 20), Some(BLUE));
    assert_eq!(c.get_pixel(32, 20), Some(BLUE));
    // Center and far outside are untouched.
    assert_eq!(c.get_pixel(20, 20), Some(WHITE));
    assert_eq!(c.get_pixel(20, 33), Some(WHITE));
}

#[test]
fn arrow_draws_shaft_and_wings() {
    let mut c = solid(60, 60, WHITE);
    draw_arrow(&mut c, 10, 30, 50, 30, 2, RED);
    // Shaft pixels.
    assert_eq!(c.get_pixel(30, 30), Some(RED));
    assert_eq!(c.get_pixel(30, 32), Some(RED));
    // The wings lean back from the tip: above and below the shaft,
    // behind the tip at (50, 30) by the wing offset of about 16.
    let mut above = false;
    let mut below = false;
    for x in 34..50u32 {
        for y in 14..30u32 {
            if c.get_pixel(x, y) == Some(RED) && 30 - y > 3 {
                above = true;
            }
        }
        for y in 31..47u32 {
            if c.get_pixel(x, y) == Some(RED) && y - 30 > 3 {
                below = true;
            }
        }
    }
    assert!(above && below);
    assert_eq!(c.get_pixel(5, 5), Some(WHITE));
}

#[test]
fn arrow_without_extent_is_just_a_dot() {
    let mut c = solid(20, 20, WHITE);
    draw_arrow(&mut c, 10, 10, 10, 10, 1, RED);
    assert_eq!(c.get_pixel(10, 10), Some(RED));
    assert_eq!(c.get_pixel(10, 11), Some(RED));
    assert_eq!(c.get_pixel(10, 13), Some(WHITE));
}

#[test]
fn erase_restores_reference_content() {
    let reference = solid(30, 30, BLUE);
    let mut c = solid(30, 30, BLUE);
    // Scribble over the canvas, then erase across the scribble.
    draw_thick_line(&mut c, 5, 15, 25, 15, 4, RED);
    assert_eq!(c.get_pixel(15, 15), Some(RED));
    erase_thick_line(&reference, &mut c, 5, 15, 25, 15, 4);
    assert_eq!(c.get_pixel(15, 15), Some(BLUE));
    assert_eq!(c.get_pixel(5, 13), Some(BLUE));
}

#[test]
fn highlight_blends_toward_color_and_darkens_on_reapplication() {
    let yellow = Rgba { r: 255, g: 230, b: 40, a: 255 };
    let base = solid(20, 20, WHITE);
    let mut once = solid(20, 20, WHITE);
    highlight_line(&base, &mut once, 2, 10, 18, 10, 3, yellow);
    let p1 = once.get_pixel(10, 10).unwrap();
    // The blend alpha is a tenth of the underlying alpha: 25 of 255.
    // Blue moves from 255 toward 40 by 25/255: (40*25 + 255*230)/255 = 233.
    assert_eq!(p1, Rgba { r: 255, g: 252, b: 233, a: 255 });
    // A second pass over the committed result is strictly more saturated,
    // but still short of the highlight color itself.
    let committed = once.duplicate();
    let mut twice = once;
    highlight_line(&committed, &mut twice, 2, 10, 18, 10, 3, yellow);
    let p2 = twice.get_pixel(10, 10).unwrap();
    assert_eq!(p2, Rgba { r: 255, g: 249, b: 214, a: 255 });
    assert!(p2.b < p1.b && p2.g < p1.g);
    assert!(p2.b > yellow.b && p2.g > yellow.g);
    // Untouched areas stay white.
    assert_eq!(twice.get_pixel(10, 2), Some(WHITE));
}

#[test]
fn square_stamped_line() {
    let mut c = solid(20, 20, WHITE);
    draw_thick_line_with_rect(&mut c, 3, 5, 9, 5, 3, BLUE);
    // Each line point stamps a 3 x 3 square hanging down and right.
    assert_eq!(c.get_pixel(3, 5), Some(BLUE));
    assert_eq!(c.get_pixel(11, 7), Some(BLUE));
    assert_eq!(c.get_pixel(11, 5), Some(BLUE));
    assert_eq!(c.get_pixel(3, 4), Some(WHITE));
    assert_eq!(c.get_pixel(12, 5), Some(WHITE));
    assert_eq!(c.get_pixel(5, 8), Some(WHITE));
}

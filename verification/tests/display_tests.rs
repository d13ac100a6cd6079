use rasterizer::consts::{C_BLACK, C_GREEN, C_RED, C_WHITE, HEIGHT, WIDTH};
use rasterizer::display::{
    clear_color_buffer, draw_filled_triangle, draw_grid, draw_line, draw_pixel, draw_rect,
    draw_triangle,
};

fn frame() -> Vec<u8> {
    vec![0u8; (WIDTH as usize) * (HEIGHT as usize) * 4]
}

fn pixel(frame: &[u8], x: usize, y: usize) -> [u8; 4] {
    let base = (y * WIDTH as usize + x) * 4;
    [frame[base], frame[base + 1], frame[base + 2], frame[base + 3]]
}

fn colored_pixels(frame: &[u8], rgba: [u8; 4]) -> Vec<(usize, usize)> {
    let mut out = Vec::new();
    for y in 0..HEIGHT as usize {
        for x in 0..WIDTH as usize {
            if pixel(frame, x, y) == rgba {
                out.push((x, y));
            }
        }
    }
    out
}

#[test]
fn draw_pixel_writes_four_bytes() {
    let mut f = frame();
    draw_pixel(&mut f, 3, 2, C_RED);
    assert_eq!(pixel(&f, 3, 2), C_RED);
    assert_eq!(pixel(&f, 2, 2), [0, 0, 0, 0]);
    assert_eq!(colored_pixels(&f, C_RED).len(), 1);
}

#[test]
fn draw_pixel_past_right_edge_is_a_no_op() {
    let mut f = frame();
    let before = f.clone();
    draw_pixel(&mut f, WIDTH as usize, 0, C_RED);
    assert_eq!(f, before);
}

#[test]
fn draw_pixel_past_bottom_edge_is_a_no_op() {
    let mut f = frame();
    let before = f.clone();
    draw_pixel(&mut f, 0, HEIGHT as usize, C_RED);
    assert_eq!(f, before);
}

#[test]
fn clear_color_buffer_fills_every_pixel() {
    let mut f = frame();
    clear_color_buffer(&mut f, C_WHITE);
    for (i, b) in f.iter().enumerate() {
        assert_eq!(*b, C_WHITE[i % 4]);
    }
}

#[test]
fn horizontal_line_colors_exactly_five_pixels() {
    let mut f = frame();
    draw_line(&mut f, 0, 0, 4, 0, C_RED);
    let got = colored_pixels(&f, C_RED);
    assert_eq!(got, vec![(0, 0), (1, 0), (2, 0), (3, 0), (4, 0)]);
}

#[test]
fn line_endpoints_are_inclusive_both_directions() {
    let mut f = frame();
    draw_line(&mut f, 4, 0, 0, 0, C_RED);
    assert_eq!(colored_pixels(&f, C_RED).len(), 5);
}

#[test]
fn zero_length_line_plots_one_pixel() {
    let mut f = frame();
    draw_line(&mut f, 7, 9, 7, 9, C_RED);
    assert_eq!(colored_pixels(&f, C_RED), vec![(7, 9)]);
}

#[test]
fn diagonal_line_steps_once_per_column() {
    let mut f = frame();
    draw_line(&mut f, 0, 0, 3, 3, C_RED);
    assert_eq!(colored_pixels(&f, C_RED), vec![(0, 0), (1, 1), (2, 2), (3, 3)]);
}

#[test]
fn line_off_screen_parts_are_clipped() {
    let mut f = frame();
    draw_line(&mut f, -2, 0, 2, 0, C_RED);
    assert_eq!(colored_pixels(&f, C_RED), vec![(0, 0), (1, 0), (2, 0)]);
}

#[test]
fn filled_triangle_flat_bottom_exact_pixels() {
    let mut f = frame();
    draw_filled_triangle(&mut f, 0, 0, 0, 2, 2, 2, C_RED);
    let got = colored_pixels(&f, C_RED);
    assert_eq!(got, vec![(0, 0), (0, 1), (1, 1), (0, 2), (1, 2), (2, 2)]);
}

#[test]
fn filled_triangle_collinear_points_do_not_panic() {
    let mut f = frame();
    draw_filled_triangle(&mut f, 0, 0, 2, 2, 4, 4, C_RED);
    draw_filled_triangle(&mut f, 1, 5, 3, 5, 7, 5, C_RED);
    draw_filled_triangle(&mut f, 9, 9, 9, 9, 9, 9, C_RED);
}

#[test]
fn filled_triangle_vertex_order_does_not_matter() {
    let mut a = frame();
    let mut b = frame();
    draw_filled_triangle(&mut a, 10, 10, 20, 30, 30, 15, C_RED);
    draw_filled_triangle(&mut b, 30, 15, 10, 10, 20, 30, C_RED);
    assert_eq!(a, b);
}

#[test]
fn triangle_outline_draws_the_three_edges() {
    let mut f = frame();
    draw_triangle(&mut f, C_GREEN, false, 0, 0, 4, 0, 0, 4);
    let got = colored_pixels(&f, C_GREEN);
    assert_eq!(got.len(), 12);
    assert!(got.contains(&(0, 0)));
    assert!(got.contains(&(4, 0)));
    assert!(got.contains(&(0, 4)));
    assert!(got.contains(&(2, 2)));
}

#[test]
fn triangle_filled_flag_matches_draw_filled_triangle() {
    let mut a = frame();
    let mut b = frame();
    draw_triangle(&mut a, C_RED, true, 5, 5, 15, 25, 25, 10);
    draw_filled_triangle(&mut b, 5, 5, 15, 25, 25, 10, C_RED);
    assert_eq!(a, b);
}

#[test]
fn rect_covers_its_width_and_height() {
    let mut f = frame();
    draw_rect(&mut f, 5, 7, 2, 3, C_RED);
    let got = colored_pixels(&f, C_RED);
    assert_eq!(got, vec![(5, 7), (6, 7), (5, 8), (6, 8), (5, 9), (6, 9)]);
}

#[test]
fn rect_is_clipped_at_the_screen_edge() {
    let mut f = frame();
    draw_rect(&mut f, WIDTH as usize - 1, HEIGHT as usize - 1, 5, 5, C_RED);
    assert_eq!(
        colored_pixels(&f, C_RED),
        vec![(WIDTH as usize - 1, HEIGHT as usize - 1)]
    );
}

#[test]
fn grid_dots_sit_at_gap_intersections() {
    let mut f = frame();
    draw_grid(&mut f, C_WHITE, 400);
    assert_eq!(colored_pixels(&f, C_WHITE), vec![(200, 200), (600, 200)]);
}

#[test]
fn background_stays_black_outside_primitives() {
    let mut f = frame();
    clear_color_buffer(&mut f, C_BLACK);
    draw_line(&mut f, 0, 0, 4, 0, C_RED);
    assert_eq!(pixel(&f, 10, 10), C_BLACK);
}

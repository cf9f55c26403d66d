use rasterizer::colors::Colors;
use rasterizer::framebuffer::Framebuffer;

fn pixel(fb: &Framebuffer, x: usize, y: usize) -> u32 {
    fb.buffer[y * fb.width + x]
}

fn count_color(fb: &Framebuffer, color: u32) -> usize {
    let mut n: usize = 0;
    for &p in fb.buffer.iter() {
        if p == color {
            n += 1;
        }
    }
    n
}

#[test]
fn new_buffer_is_black() {
    let fb = Framebuffer::new(4, 3);
    assert_eq!(fb.width, 4);
    assert_eq!(fb.height, 3);
    assert_eq!(fb.buffer.len(), 12);
    assert!(fb.buffer.iter().all(|&p| p == 0));
}

#[test]
fn clear_overwrites_every_pixel() {
    let mut fb = Framebuffer::new(5, 5);
    fb.set_pixel(2, 2, 0x123456);
    fb.clear(0xABCDEF);
    assert!(fb.buffer.iter().all(|&p| p == 0xABCDEF));
}

#[test]
fn set_pixel_writes_in_bounds() {
    let mut fb = Framebuffer::new(10, 10);
    fb.set_pixel(3, 4, 0xFF0000);
    assert_eq!(pixel(&fb, 3, 4), 0xFF0000);
    assert_eq!(count_color(&fb, 0xFF0000), 1);
}

#[test]
fn set_pixel_out_of_bounds_leaves_buffer_unchanged() {
    let mut fb = Framebuffer::new(10, 10);
    fb.set_pixel(5, 5, 0x00FF00);
    let before = fb.buffer.clone();
    fb.set_pixel(-1, 0, 0xFF0000);
    fb.set_pixel(0, -1, 0xFF0000);
    fb.set_pixel(10, 0, 0xFF0000);
    fb.set_pixel(0, 10, 0xFF0000);
    fb.set_pixel(-100, 700, 0xFF0000);
    assert_eq!(fb.buffer, before);
}

#[test]
fn zero_length_line_sets_exactly_one_pixel() {
    let mut fb = Framebuffer::new(10, 10);
    fb.draw_line(3, 4, 3, 4, 0xFF00FF);
    assert_eq!(pixel(&fb, 3, 4), 0xFF00FF);
    assert_eq!(count_color(&fb, 0xFF00FF), 1);
}

#[test]
fn zero_length_line_off_buffer_is_a_no_op() {
    let mut fb = Framebuffer::new(10, 10);
    fb.draw_line(-2, -2, -2, -2, 0xFF00FF);
    assert_eq!(count_color(&fb, 0xFF00FF), 0);
}

#[test]
fn horizontal_line_sets_its_row_and_nothing_else() {
    let mut fb = Framebuffer::new(10, 10);
    fb.draw_line(0, 0, 4, 0, 0x00FFFF);
    for x in 0..5usize {
        assert_eq!(pixel(&fb, x, 0), 0x00FFFF);
    }
    assert_eq!(count_color(&fb, 0x00FFFF), 5);
    for y in 1..10usize {
        for x in 0..10usize {
            assert_eq!(pixel(&fb, x, y), 0);
        }
    }
}

#[test]
fn diagonal_line_hits_both_endpoints() {
    let mut fb = Framebuffer::new(10, 10);
    fb.draw_line(1, 1, 7, 4, 0xFFFFFF);
    assert_eq!(pixel(&fb, 1, 1), 0xFFFFFF);
    assert_eq!(pixel(&fb, 7, 4), 0xFFFFFF);
}

#[test]
fn draw_triangle_outlines_the_three_corners() {
    let mut fb = Framebuffer::new(10, 10);
    fb.draw_triangle((1, 1), (5, 1), (3, 4), 0x0000FF);
    assert_eq!(pixel(&fb, 1, 1), 0x0000FF);
    assert_eq!(pixel(&fb, 5, 1), 0x0000FF);
    assert_eq!(pixel(&fb, 3, 4), 0x0000FF);
    assert_eq!(pixel(&fb, 2, 1), 0x0000FF);
}

#[test]
fn draw_scanline_orders_and_clamps_the_span() {
    let mut fb = Framebuffer::new(10, 10);
    fb.draw_scanline(2, 7, -3, 0x00FF00);
    for x in 0..8usize {
        assert_eq!(pixel(&fb, x, 2), 0x00FF00);
    }
    assert_eq!(count_color(&fb, 0x00FF00), 8);
    fb.draw_scanline(5, 12, 8, 0x0000FF);
    assert_eq!(pixel(&fb, 8, 5), 0x0000FF);
    assert_eq!(pixel(&fb, 9, 5), 0x0000FF);
    assert_eq!(count_color(&fb, 0x0000FF), 2);
}

#[test]
fn draw_scanline_outside_rows_is_a_no_op() {
    let mut fb = Framebuffer::new(10, 10);
    fb.draw_scanline(-1, 0, 9, 0x00FF00);
    fb.draw_scanline(10, 0, 9, 0x00FF00);
    assert_eq!(count_color(&fb, 0x00FF00), 0);
}

#[test]
fn fill_triangle_covers_about_its_area() {
    let mut fb = Framebuffer::new(20, 20);
    fb.fill_triangle((0, 0), (10, 0), (0, 10), 0xFF0000);
    let count = count_color(&fb, 0xFF0000) as f64;
    let area = 50.0;
    let perimeter = 10.0 + 10.0 + (200.0f64).sqrt();
    assert!((count - area).abs() <= perimeter);
}

#[test]
fn fill_triangle_degenerate_row_stays_on_its_row() {
    let mut fb = Framebuffer::new(20, 20);
    fb.fill_triangle((2, 5), (8, 5), (5, 5), 0x00FF00);
    for x in 0..20usize {
        for y in 0..20usize {
            if y != 5 {
                assert_eq!(pixel(&fb, x, y), 0);
            }
        }
    }
}

#[test]
fn project_origin_lands_in_the_screen_center() {
    let fb = Framebuffer::new(800, 600);
    assert_eq!(fb.project_3d_to_2d(0, 0, 0, 500, 400), (400, 300));
    assert_eq!(fb.project_3d_to_2d(0, 0, 0, 123, 7), (400, 300));
    let fb2 = Framebuffer::new(801, 601);
    assert_eq!(fb2.project_3d_to_2d(0, 0, 0, 500, 400), (401, 301));
}

#[test]
fn project_matches_the_perspective_formula() {
    let fb = Framebuffer::new(200, 200);
    // -50 * 500 / 350 + 100 = 28.571..., rounds to 29.
    assert_eq!(fb.project_3d_to_2d(-50, -50, -50, 500, 400), (29, 29));
    // 50 * 500 / 450 + 100 = 155.55..., rounds to 156.
    assert_eq!(fb.project_3d_to_2d(50, 50, 50, 500, 400), (156, 156));
}

const S: i64 = 65536;

#[test]
fn rotate_by_zero_angles_is_the_identity() {
    let fb = Framebuffer::new(2, 2);
    let pts = vec![
        (-50 * S, -50 * S, -50 * S),
        (50 * S, -50 * S, -50 * S),
        (13 * S + 7, -2 * S + 1, 5 * S - 3),
    ];
    let out = fb.rotate_cube(&pts, 0, S, 0, S, 0, S);
    assert_eq!(out, pts);
}

#[test]
fn rotate_preserves_length_and_order() {
    let fb = Framebuffer::new(2, 2);
    let pts = vec![(S, 0, 0), (0, S, 0), (0, 0, S), (S, S, S)];
    // sin/cos of a quarter turn about Z: x maps toward y.
    let out = fb.rotate_cube(&pts, 0, S, 0, S, S, 0);
    assert_eq!(out.len(), pts.len());
}

#[test]
fn cross_product_of_plane_edges_points_along_the_axis() {
    let c = Framebuffer::cross_product((0, 0, 0), (S, 0, 0), (0, S, 0));
    assert_eq!(c, (0, 0, S * S));
}

#[test]
fn normal_of_a_plane_face_is_the_unit_axis() {
    let n = Framebuffer::calculate_normal((0, 0, 0), (S, 0, 0), (0, S, 0));
    assert_eq!(n, (0, 0, S));
}

#[test]
fn brightness_of_aligned_normal_is_full() {
    let b = Framebuffer::calculate_brightness((0, 0, S), (0, 0, S));
    assert_eq!(b, S);
}

#[test]
fn brightness_of_opposed_normal_is_zero_never_negative() {
    let b = Framebuffer::calculate_brightness((0, 0, S), (0, 0, -S));
    assert_eq!(b, 0);
    let b2 = Framebuffer::calculate_brightness((S / 2, 0, S / 2), (-S, 0, -S));
    assert_eq!(b2, 0);
}

#[test]
fn half_brightness_halves_every_channel() {
    let shaded = Framebuffer::apply_brightness_to_color(0xFFFFFF, S / 2);
    assert_eq!(shaded, 0x7F7F7F);
}

#[test]
fn brightness_above_one_saturates_channels() {
    let shaded = Framebuffer::apply_brightness_to_color(0xFF0000, 2 * S);
    assert_eq!(shaded, 0xFF0000);
    let mixed = Framebuffer::apply_brightness_to_color(0x40FF40, 2 * S);
    assert_eq!(mixed, 0x80FF80);
}

#[test]
fn negative_brightness_blacks_out_the_color() {
    let shaded = Framebuffer::apply_brightness_to_color(0xFFFFFF, -S);
    assert_eq!(shaded, 0x000000);
}

#[test]
fn ray_hits_the_nearest_square_edge() {
    let fb = Framebuffer::new(2, 2);
    let square = vec![(5 * S, -5 * S), (5 * S, 5 * S), (15 * S, 5 * S), (15 * S, -5 * S)];
    let hit = fb.intersect_ray_with_polygon(0, 0, S, 0, &square);
    assert_eq!(hit, Some((5 * S, 0)));
}

#[test]
fn ray_pointing_away_misses_every_edge() {
    let fb = Framebuffer::new(2, 2);
    let square = vec![(5 * S, -5 * S), (5 * S, 5 * S), (15 * S, 5 * S), (15 * S, -5 * S)];
    let hit = fb.intersect_ray_with_polygon(0, 0, -S, 0, &square);
    assert_eq!(hit, None);
}

#[test]
fn ray_against_empty_polygon_misses() {
    let fb = Framebuffer::new(2, 2);
    let hit = fb.intersect_ray_with_polygon(0, 0, S, 0, &vec![]);
    assert_eq!(hit, None);
}

#[test]
fn degenerate_polygon_edges_are_skipped() {
    let fb = Framebuffer::new(2, 2);
    let poly = vec![(3 * S, -S), (3 * S, -S), (3 * S, S)];
    let hit = fb.intersect_ray_with_polygon(0, 0, S, 0, &poly);
    assert_eq!(hit, Some((3 * S, 0)));
}

fn cube_edges() -> Vec<(usize, usize)> {
    vec![
        (0, 1),
        (1, 2),
        (2, 3),
        (3, 0),
        (4, 5),
        (5, 6),
        (6, 7),
        (7, 4),
        (0, 4),
        (1, 5),
        (2, 6),
        (3, 7),
    ]
}

fn cube_faces() -> Vec<(usize, usize, usize)> {
    vec![
        (0, 1, 2),
        (0, 2, 3),
        (4, 5, 6),
        (4, 6, 7),
        (0, 1, 5),
        (0, 5, 4),
        (1, 2, 6),
        (1, 6, 5),
        (2, 3, 7),
        (2, 7, 6),
        (3, 0, 4),
        (3, 4, 7),
    ]
}

#[test]
fn draw_cube_marks_the_projected_corners() {
    let mut fb = Framebuffer::new(200, 200);
    let vertices = vec![
        (-50, -50, -50),
        (50, -50, -50),
        (50, 50, -50),
        (-50, 50, -50),
        (-50, -50, 50),
        (50, -50, 50),
        (50, 50, 50),
        (-50, 50, 50),
    ];
    fb.draw_cube(vertices, &cube_edges(), 500, 400, 0xFFFF00);
    // Vertex (-50, -50, -50) projects to (29, 29); (50, 50, -50) to (171, 171).
    assert_eq!(pixel(&fb, 29, 29), 0xFFFF00);
    assert_eq!(pixel(&fb, 171, 171), 0xFFFF00);
    // The top edge of the front square is horizontal: every pixel between.
    for x in 29..=171usize {
        assert_eq!(pixel(&fb, x, 29), 0xFFFF00);
    }
}

#[test]
fn lit_solid_shades_faces_and_highlights_edges() {
    let mut fb = Framebuffer::new(200, 200);
    let vertices: Vec<(i64, i64, i64)> = vec![
        (-50 * S, -50 * S, -50 * S),
        (50 * S, -50 * S, -50 * S),
        (50 * S, 50 * S, -50 * S),
        (-50 * S, 50 * S, -50 * S),
        (-50 * S, -50 * S, 50 * S),
        (50 * S, -50 * S, 50 * S),
        (50 * S, 50 * S, 50 * S),
        (-50 * S, 50 * S, 50 * S),
    ];
    let red = Colors::red().as_u32();
    let white = Colors::white().as_u32();
    fb.draw_filled_cube_with_lighting(
        vertices,
        0,
        S,
        0,
        S,
        0,
        S,
        red,
        (0, 0, S),
        white,
        &cube_faces(),
        &cube_edges(),
        500,
        400,
    );
    // The screen center is covered last by the top quad, whose normal points
    // along +z, fully lit by the +z light: pure red.
    assert_eq!(pixel(&fb, 100, 100), red);
    // The projected corners are overdrawn by the white edge highlight.
    assert_eq!(pixel(&fb, 29, 29), white);
    assert_eq!(pixel(&fb, 171, 171), white);
}

#[test]
fn palette_colors_pack_their_channels() {
    assert_eq!(Colors::red().as_u32(), 0xFF0000);
    assert_eq!(Colors::green().as_u32(), 0x00FF00);
    assert_eq!(Colors::blue().as_u32(), 0x0000FF);
    assert_eq!(Colors::white().as_u32(), 0xFFFFFF);
}

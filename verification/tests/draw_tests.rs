use tinyrender::data::{Color, PointScreen};
use tinyrender::draw::{clamp, draw_point, fill_col, fill_row, set_px_safe, Screen};
use tinyrender::line::draw_line;
use tinyrender::tri::{draw_mesh_triangles, draw_triangle};

fn px(s: &Screen, x: usize, y: usize) -> (u8, u8, u8) {
    let i = 4 * (y * s.w + x);
    (s.data[i + 2], s.data[i + 1], s.data[i])
}

fn count_colored(s: &Screen, c: Color) -> usize {
    let mut n = 0;
    for y in 0..s.h {
        for x in 0..s.w {
            if px(s, x, y) == (c.r, c.g, c.b) {
                n += 1;
            }
        }
    }
    n
}

#[test]
fn new_screen_is_zeroed() {
    let s = Screen::new(4, 3);
    assert_eq!(s.w, 4);
    assert_eq!(s.h, 3);
    assert_eq!(s.data.len(), 4 * 3 * 4);
    assert!(s.data.iter().all(|&b| b == 0));
}

#[test]
fn clear_writes_black_and_keeps_pad_byte() {
    let mut s = Screen::new(2, 2);
    for i in 0..s.data.len() {
        s.data[i] = 0xAB;
    }
    s.clear();
    for p in 0..4 {
        assert_eq!(s.data[4 * p], 0);
        assert_eq!(s.data[4 * p + 1], 0);
        assert_eq!(s.data[4 * p + 2], 0);
        assert_eq!(s.data[4 * p + 3], 0xAB);
    }
}

#[test]
fn pixel_bytes_are_bgr_with_untouched_pad() {
    let mut s = Screen::new(2, 1);
    let c = Color { r: 10, g: 20, b: 30 };
    set_px_safe(&mut s, c, PointScreen { x: 1, y: 0 });
    assert_eq!(s.data[4], 30);
    assert_eq!(s.data[5], 20);
    assert_eq!(s.data[6], 10);
    assert_eq!(s.data[7], 0);
    assert_eq!(&s.data[0..4], &[0, 0, 0, 0]);
}

#[test]
fn set_px_safe_drops_out_of_bounds_writes() {
    let mut s = Screen::new(3, 3);
    let c = Color { r: 1, g: 2, b: 3 };
    set_px_safe(&mut s, c, PointScreen { x: -1, y: 0 });
    set_px_safe(&mut s, c, PointScreen { x: 0, y: -1 });
    set_px_safe(&mut s, c, PointScreen { x: 3, y: 0 });
    set_px_safe(&mut s, c, PointScreen { x: 0, y: 3 });
    assert!(s.data.iter().all(|&b| b == 0));
}

#[test]
fn draw_point_fills_clamped_square_and_nothing_else() {
    let mut s = Screen::new(8, 8);
    let red = Color::red();
    draw_point(&mut s, PointScreen { x: 3, y: 3 }, 1, red);
    for y in 0..8 {
        for x in 0..8 {
            let inside = (2..=4).contains(&x) && (2..=4).contains(&y);
            if inside {
                assert_eq!(px(&s, x, y), (255, 0, 0), "pixel {},{}", x, y);
            } else {
                assert_eq!(px(&s, x, y), (0, 0, 0), "pixel {},{}", x, y);
            }
        }
    }
}

#[test]
fn draw_point_clips_at_the_border() {
    let mut s = Screen::new(4, 4);
    let c = Color::green();
    draw_point(&mut s, PointScreen { x: 0, y: 0 }, 2, c);
    assert_eq!(count_colored(&s, c), 9);
    assert_eq!(px(&s, 2, 2), (0, 255, 0));
    assert_eq!(px(&s, 3, 0), (0, 0, 0));
}

#[test]
fn draw_point_fully_offscreen_is_a_no_op() {
    let mut s = Screen::new(4, 4);
    draw_point(&mut s, PointScreen { x: 100, y: 100 }, 3, Color::white());
    draw_point(&mut s, PointScreen { x: -50, y: 2 }, 3, Color::white());
    assert!(s.data.iter().all(|&b| b == 0));
}

#[test]
fn get_px_reads_back_what_was_drawn() {
    let mut s = Screen::new(5, 5);
    let c = Color { r: 9, g: 8, b: 7 };
    draw_point(&mut s, PointScreen { x: 2, y: 2 }, 0, c);
    let got = s.get_px(2, 2);
    assert_eq!((got.r, got.g, got.b), (9, 8, 7));
}

#[test]
fn fill_row_clamps_its_range() {
    let mut s = Screen::new(4, 4);
    let c = Color::blue();
    fill_row(&mut s, 1, -10, 10, c);
    for x in 0..4 {
        assert_eq!(px(&s, x, 1), (0, 0, 255));
    }
    assert_eq!(count_colored(&s, c), 4);
    fill_row(&mut s, -1, 0, 3, c);
    fill_row(&mut s, 4, 0, 3, c);
    assert_eq!(count_colored(&s, c), 4);
}

#[test]
fn fill_col_clamps_its_range() {
    let mut s = Screen::new(4, 4);
    let c = Color::white();
    fill_col(&mut s, 2, -3, 100, c);
    for y in 0..4 {
        assert_eq!(px(&s, 2, y), (255, 255, 255));
    }
    assert_eq!(count_colored(&s, c), 4);
}

#[test]
fn clamp_behaves_like_min_max() {
    assert_eq!(clamp(5, 0, 10), 5);
    assert_eq!(clamp(-5, 0, 10), 0);
    assert_eq!(clamp(15, 0, 10), 10);
    assert_eq!(clamp(10, 0, 10), 10);
}

#[test]
fn line_of_equal_endpoints_draws_that_pixel() {
    let mut s = Screen::new(5, 5);
    let c = Color::white();
    draw_line(&mut s, PointScreen { x: 2, y: 3 }, PointScreen { x: 2, y: 3 }, c);
    assert_eq!(px(&s, 2, 3), (255, 255, 255));
    assert_eq!(count_colored(&s, c), 1);
}

#[test]
fn line_is_endpoint_order_independent() {
    let cases = [
        ((1, 1), (6, 3)),
        ((0, 5), (7, 0)),
        ((3, 0), (3, 7)),
        ((0, 2), (7, 2)),
        ((6, 6), (1, 2)),
        ((-2, -1), (5, 9)),
    ];
    for &((x1, y1), (x2, y2)) in &cases {
        let mut a = Screen::new(8, 8);
        let mut b = Screen::new(8, 8);
        let c = Color::red();
        draw_line(&mut a, PointScreen { x: x1, y: y1 }, PointScreen { x: x2, y: y2 }, c);
        draw_line(&mut b, PointScreen { x: x2, y: y2 }, PointScreen { x: x1, y: y1 }, c);
        assert_eq!(a.data, b.data, "case {:?}", ((x1, y1), (x2, y2)));
    }
}

#[test]
fn horizontal_and_vertical_lines_are_solid() {
    let mut s = Screen::new(6, 6);
    let c = Color::white();
    draw_line(&mut s, PointScreen { x: 1, y: 2 }, PointScreen { x: 4, y: 2 }, c);
    for x in 1..=4 {
        assert_eq!(px(&s, x, 2), (255, 255, 255));
    }
    assert_eq!(count_colored(&s, c), 4);

    let mut v = Screen::new(6, 6);
    draw_line(&mut v, PointScreen { x: 3, y: 0 }, PointScreen { x: 3, y: 5 }, c);
    for y in 0..=5 {
        assert_eq!(px(&v, 3, y), (255, 255, 255));
    }
    assert_eq!(count_colored(&v, c), 6);
}

#[test]
fn x_major_line_uses_truncating_interpolation() {
    let mut s = Screen::new(6, 6);
    let c = Color::white();
    draw_line(&mut s, PointScreen { x: 0, y: 0 }, PointScreen { x: 4, y: 2 }, c);
    // y = x * 2 / 4, truncated
    for (x, y) in [(0, 0), (1, 0), (2, 1), (3, 1), (4, 2)] {
        assert_eq!(px(&s, x, y), (255, 255, 255), "pixel {},{}", x, y);
    }
    assert_eq!(count_colored(&s, c), 5);
}

#[test]
fn y_major_line_steps_leftward_with_truncation() {
    let mut s = Screen::new(6, 6);
    let c = Color::white();
    draw_line(&mut s, PointScreen { x: 4, y: 0 }, PointScreen { x: 2, y: 5 }, c);
    // x = 4 - y * 2 / 5, truncated, one pixel per row
    for (x, y) in [(4, 0), (4, 1), (4, 2), (3, 3), (3, 4), (2, 5)] {
        assert_eq!(px(&s, x, y), (255, 255, 255), "pixel {},{}", x, y);
    }
    assert_eq!(count_colored(&s, c), 6);
}

#[test]
fn diagonal_line_hits_the_diagonal() {
    let mut s = Screen::new(5, 5);
    let c = Color::white();
    draw_line(&mut s, PointScreen { x: 0, y: 0 }, PointScreen { x: 4, y: 4 }, c);
    for i in 0..5 {
        assert_eq!(px(&s, i, i), (255, 255, 255));
    }
    assert_eq!(count_colored(&s, c), 5);
}

#[test]
fn offscreen_line_is_clipped_without_error() {
    let mut s = Screen::new(4, 4);
    draw_line(
        &mut s,
        PointScreen { x: -100, y: -100 },
        PointScreen { x: -90, y: -90 },
        Color::white(),
    );
    assert!(s.data.iter().all(|&b| b == 0));
}

#[test]
fn degenerate_triangle_fills_nothing_and_does_not_hang() {
    let mut s = Screen::new(6, 6);
    let p = PointScreen { x: 3, y: 3 };
    draw_triangle(&mut s, p, p, p, Color::white());
    assert!(s.data.iter().all(|&b| b == 0));
}

#[test]
fn horizontal_triangle_fills_nothing() {
    let mut s = Screen::new(6, 6);
    draw_triangle(
        &mut s,
        PointScreen { x: 0, y: 2 },
        PointScreen { x: 3, y: 2 },
        PointScreen { x: 5, y: 2 },
        Color::white(),
    );
    assert!(s.data.iter().all(|&b| b == 0));
}

#[test]
fn right_triangle_fills_expected_rows() {
    let mut s = Screen::new(8, 8);
    let c = Color::white();
    // Flat-bottom-heavy triangle: apex at (0,0), base from (0,4) to (4,4).
    draw_triangle(
        &mut s,
        PointScreen { x: 0, y: 0 },
        PointScreen { x: 0, y: 4 },
        PointScreen { x: 4, y: 4 },
        c,
    );
    // The shared row at the middle vertex's y and the base row are filled
    // between the interpolated edges; the apex pixel is drawn.
    assert_eq!(px(&s, 0, 0), (255, 255, 255));
    for x in 0..=4 {
        assert_eq!(px(&s, x, 4), (255, 255, 255), "base {},4", x);
    }
    // A point clearly outside the triangle stays black.
    assert_eq!(px(&s, 7, 0), (0, 0, 0));
    assert_eq!(px(&s, 7, 7), (0, 0, 0));
    // Every filled pixel lies on or left of the hypotenuse x == y.
    for y in 0..8 {
        for x in 0..8 {
            if px(&s, x, y) == (255, 255, 255) {
                assert!(x <= y, "pixel {},{} outside hypotenuse", x, y);
            }
        }
    }
}

#[test]
fn mesh_draws_the_union_of_its_triangles() {
    let pts = vec![
        PointScreen { x: 0, y: 0 },
        PointScreen { x: 5, y: 0 },
        PointScreen { x: 0, y: 5 },
        PointScreen { x: 7, y: 7 },
        PointScreen { x: 7, y: 4 },
        PointScreen { x: 4, y: 7 },
    ];
    let tris = vec![0, 1, 2, 3, 4, 5];
    let c = Color::white();

    let mut mesh = Screen::new(8, 8);
    draw_mesh_triangles(&mut mesh, &pts, &tris, c);

    let mut by_hand = Screen::new(8, 8);
    draw_triangle(&mut by_hand, pts[0], pts[1], pts[2], c);
    draw_triangle(&mut by_hand, pts[3], pts[4], pts[5], c);

    assert_eq!(mesh.data, by_hand.data);
    assert!(count_colored(&mesh, c) > 0);
}

#[test]
fn mesh_ignores_a_trailing_partial_triple() {
    let pts = vec![
        PointScreen { x: 0, y: 0 },
        PointScreen { x: 5, y: 0 },
        PointScreen { x: 0, y: 5 },
    ];
    let mut full = Screen::new(8, 8);
    draw_mesh_triangles(&mut full, &pts, &vec![0, 1, 2], Color::white());
    let mut trailing = Screen::new(8, 8);
    draw_mesh_triangles(&mut trailing, &pts, &vec![0, 1, 2, 0, 1], Color::white());
    assert_eq!(full.data, trailing.data);
}

#[test]
fn triangle_vertex_order_does_not_matter() {
    let pts = [
        PointScreen { x: 1, y: 1 },
        PointScreen { x: 6, y: 2 },
        PointScreen { x: 3, y: 6 },
    ];
    let orders = [
        [0, 1, 2],
        [0, 2, 1],
        [1, 0, 2],
        [1, 2, 0],
        [2, 0, 1],
        [2, 1, 0],
    ];
    let mut first: Option<Vec<u8>> = None;
    for ord in &orders {
        let mut s = Screen::new(8, 8);
        draw_triangle(&mut s, pts[ord[0]], pts[ord[1]], pts[ord[2]], Color::white());
        match &first {
            None => first = Some(s.data.clone()),
            Some(d) => assert_eq!(&s.data, d, "order {:?}", ord),
        }
    }
}

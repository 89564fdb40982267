use rustcanvas::{CanvasError, RustCanvas};

fn canvas(w: usize, h: usize) -> RustCanvas {
    RustCanvas::new(w, h).unwrap()
}

fn painted(c: &RustCanvas, color: u32) -> Vec<(usize, usize)> {
    let mut out = Vec::new();
    for y in 0..c.height() {
        for x in 0..c.width() {
            if c.get_pixel(x, y) == Some(color) {
                out.push((x, y));
            }
        }
    }
    out
}

fn sorted(mut v: Vec<(usize, usize)>) -> Vec<(usize, usize)> {
    v.sort();
    v
}

#[test]
fn rect_is_half_open() {
    let mut c = canvas(6, 6);
    c.fill_rect(1, 2, 3, 2, 5);
    let expected = vec![(1, 2), (2, 2), (3, 2), (1, 3), (2, 3), (3, 3)];
    assert_eq!(painted(&c, 5), expected);
}

#[test]
fn rect_corner_order_does_not_matter() {
    let mut a = canvas(6, 6);
    a.fill_rect(1, 2, 3, 2, 5);
    let mut b = canvas(6, 6);
    b.fill_rect(4, 4, -3, -2, 5);
    assert_eq!(painted(&a, 5), painted(&b, 5));
}

#[test]
fn rect_is_clamped_to_canvas() {
    let mut c = canvas(4, 3);
    c.fill_rect(-5, -5, 100, 100, 2);
    assert_eq!(painted(&c, 2).len(), 12);
    let mut d = canvas(4, 3);
    d.fill_rect(10, 10, 3, 3, 2);
    assert_eq!(painted(&d, 2).len(), 0);
    let mut e = canvas(4, 3);
    e.fill_rect(3, 0, 5, 1, 2);
    assert_eq!(painted(&e, 2), vec![(3, 0)]);
}

#[test]
fn circle_radius_zero_is_center() {
    let mut c = canvas(9, 9);
    c.fill_circle(4, 3, 0, 1);
    assert_eq!(painted(&c, 1), vec![(4, 3)]);
}

#[test]
fn circle_radius_one_is_a_plus() {
    let mut c = canvas(5, 5);
    c.fill_circle(2, 2, 1, 1);
    assert_eq!(sorted(painted(&c, 1)), vec![(1, 2), (2, 1), (2, 2), (2, 3), (3, 2)]);
}

#[test]
fn circle_area_is_close_to_pi_r_squared() {
    let mut c = canvas(100, 100);
    for r in [5i32, 10, 20, 40] {
        c.fill(0);
        c.fill_circle(50, 50, r, 1);
        let n = painted(&c, 1).len() as f64;
        let area = std::f64::consts::PI * (r as f64) * (r as f64);
        assert!((n - area).abs() <= 0.1 * area, "r = {}: {} pixels", r, n);
    }
}

#[test]
fn circle_off_canvas_is_clipped() {
    let mut c = canvas(10, 10);
    c.fill_circle(0, 0, 3, 1);
    let px = painted(&c, 1);
    assert!(px.contains(&(0, 0)));
    assert!(px.contains(&(3, 0)));
    assert!(px.contains(&(2, 2)));
    assert!(!px.contains(&(3, 3)));
    assert_eq!(px.len(), 11);
    let mut d = canvas(10, 10);
    d.fill_circle(-20, 50, 3, 1);
    assert_eq!(painted(&d, 1).len(), 0);
    d.fill_circle(5, 5, -1, 1);
    assert_eq!(painted(&d, 1).len(), 0);
}

#[test]
fn vertical_line_on_left_edge() {
    let mut c = canvas(5, 7);
    c.fill(3);
    assert_eq!(c.line_to(0, 0, 0, 6, 9), Ok(()));
    let expected: Vec<(usize, usize)> = (0..7).map(|y| (0, y)).collect();
    assert_eq!(sorted(painted(&c, 9)), expected);
    assert_eq!(painted(&c, 3).len(), 5 * 7 - 7);
}

#[test]
fn horizontal_line() {
    let mut c = canvas(6, 3);
    c.line_to(4, 1, 1, 1, 9).unwrap();
    assert_eq!(painted(&c, 9), vec![(1, 1), (2, 1), (3, 1), (4, 1)]);
}

#[test]
fn shallow_line_pixels() {
    let mut c = canvas(6, 4);
    c.line_to(0, 0, 4, 2, 9).unwrap();
    let expected = vec![(0, 0), (1, 0), (1, 1), (2, 1), (3, 1), (3, 2), (4, 2)];
    assert_eq!(sorted(painted(&c, 9)), sorted(expected));
}

#[test]
fn rising_line_rounds_down() {
    let mut c = canvas(6, 4);
    c.line_to(0, 2, 4, 0, 9).unwrap();
    let expected = vec![(0, 1), (0, 2), (1, 1), (2, 0), (2, 1), (3, 0), (4, 0)];
    assert_eq!(sorted(painted(&c, 9)), sorted(expected));
}

#[test]
fn single_point_line() {
    let mut c = canvas(4, 4);
    c.line_to(2, 3, 2, 3, 9).unwrap();
    assert_eq!(painted(&c, 9), vec![(2, 3)]);
}

#[test]
fn line_is_symmetric() {
    let ends = [(0, 0, 9, 4), (2, 9, 7, 0), (0, 5, 9, 5), (3, 0, 3, 9), (1, 1, 8, 8), (0, 9, 4, 0), (9, 0, 0, 1)];
    for (x1, y1, x2, y2) in ends {
        let mut a = canvas(10, 10);
        a.line_to(x1, y1, x2, y2, 1).unwrap();
        let mut b = canvas(10, 10);
        b.line_to(x2, y2, x1, y1, 1).unwrap();
        assert_eq!(painted(&a, 1), painted(&b, 1));
    }
}

#[test]
fn line_is_connected_for_common_slopes() {
    // slopes 0, 0.5, 1, 2 and vertical, both rising and falling
    let ends = [(0, 5, 19, 5), (0, 0, 18, 9), (0, 0, 19, 19), (0, 0, 9, 18), (4, 0, 4, 19), (0, 19, 18, 10), (0, 19, 9, 1)];
    for (x1, y1, x2, y2) in ends {
        let mut c = canvas(20, 20);
        c.line_to(x1, y1, x2, y2, 1).unwrap();
        let px = painted(&c, 1);
        assert!(px.contains(&(x1 as usize, y1 as usize)));
        assert!(px.contains(&(x2 as usize, y2 as usize)));
        let (lo, hi) = if x1 <= x2 { (x1, x2) } else { (x2, x1) };
        for x in lo..hi {
            let x = x as usize;
            let shared = px.iter().any(|&(px0, py0)| px0 == x && px.contains(&(x + 1, py0)));
            assert!(shared, "columns {} and {} do not meet", x, x + 1);
        }
        for &(x, y) in &px {
            // every column's rows form one run
            let rows: Vec<usize> = px.iter().filter(|p| p.0 == x).map(|p| p.1).collect();
            let min = *rows.iter().min().unwrap();
            let max = *rows.iter().max().unwrap();
            assert_eq!(rows.len(), max - min + 1);
            assert!(min <= y && y <= max);
        }
    }
}

#[test]
fn line_endpoint_out_of_bounds() {
    let mut c = canvas(5, 5);
    assert_eq!(c.line_to(0, 0, 5, 0, 1), Err(CanvasError::OutOfBounds));
    assert_eq!(c.line_to(-1, 0, 3, 3, 1), Err(CanvasError::OutOfBounds));
    assert_eq!(c.line_to(0, 0, 2, 5, 1), Err(CanvasError::OutOfBounds));
    assert_eq!(painted(&c, 1).len(), 0);
}

#[test]
fn triangle_right_angle_pixels() {
    let mut c = canvas(5, 5);
    c.draw_triangle(0, 0, 0, 3, 3, 3, 1);
    let expected = vec![
        (0, 0),
        (0, 1), (1, 1),
        (0, 2), (1, 2), (2, 2),
        (0, 3), (1, 3), (2, 3), (3, 3),
    ];
    assert_eq!(sorted(painted(&c, 1)), sorted(expected));
}

#[test]
fn triangle_vertex_order_does_not_matter() {
    let v = [(2, 1), (9, 4), (0, 8)];
    let orders = [[0, 1, 2], [0, 2, 1], [1, 0, 2], [1, 2, 0], [2, 0, 1], [2, 1, 0]];
    let mut first: Option<Vec<(usize, usize)>> = None;
    for o in orders {
        let mut c = canvas(10, 10);
        let (a, b, d) = (v[o[0]], v[o[1]], v[o[2]]);
        c.draw_triangle(a.0, a.1, b.0, b.1, d.0, d.1, 1);
        let px = painted(&c, 1);
        match &first {
            None => first = Some(px),
            Some(f) => assert_eq!(f, &px),
        }
    }
}

#[test]
fn triangle_covers_edges_and_middle_row() {
    let mut c = canvas(12, 12);
    c.draw_triangle(1, 1, 10, 5, 3, 10, 1);
    let px = painted(&c, 1);
    for v in [(1, 1), (10, 5), (3, 10)] {
        assert!(px.contains(&v));
    }
    for y in 1..=10usize {
        let row: Vec<usize> = px.iter().filter(|p| p.1 == y).map(|p| p.0).collect();
        assert!(!row.is_empty(), "row {} is empty", y);
        let min = *row.iter().min().unwrap();
        let max = *row.iter().max().unwrap();
        assert_eq!(row.len(), max - min + 1, "row {} has a gap", y);
    }
    let middle: Vec<usize> = px.iter().filter(|p| p.1 == 5).map(|p| p.0).collect();
    assert!(middle.contains(&10));
    assert!(middle.contains(&1));
}

#[test]
fn collinear_triangle_is_a_line() {
    let mut c = canvas(10, 10);
    c.draw_triangle(0, 0, 4, 4, 8, 8, 1);
    let px = painted(&c, 1);
    assert_eq!(sorted(px), (0..9).map(|i| (i, i)).collect::<Vec<_>>());
    let mut d = canvas(10, 10);
    d.draw_triangle(6, 6, 0, 0, 3, 3, 1);
    for y in 0..10usize {
        assert!(painted(&d, 1).iter().filter(|p| p.1 == y).count() <= 1);
    }
    let mut e = canvas(10, 10);
    e.draw_triangle(1, 4, 7, 4, 3, 4, 1);
    assert_eq!(painted(&e, 1), (1..8).map(|x| (x, 4)).collect::<Vec<_>>());
}

#[test]
fn triangle_off_canvas_is_clipped() {
    let mut c = canvas(4, 4);
    c.draw_triangle(-10, -10, 20, -10, -10, 20, 1);
    assert_eq!(painted(&c, 1).len(), 16);
}

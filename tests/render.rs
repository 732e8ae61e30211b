use sierpinski::geometry::{mid_point, refine, subdivide, Point, Triangle};
use sierpinski::paint::Color;
use sierpinski::render::{color_count, random_color, sierpinski, sierpinski_with_colors, Draw};

fn pt(x: i64, y: i64) -> Point {
    Point { x, y }
}

fn tri(a: (i64, i64), b: (i64, i64), c: (i64, i64)) -> Triangle {
    Triangle { top: pt(a.0, a.1), left: pt(b.0, b.1), right: pt(c.0, c.1) }
}

fn root() -> Triangle {
    tri((300, 0), (0, 600), (600, 600))
}

fn green() -> Color {
    Color { red: 0, green: 255, blue: 0 }
}

fn in_pixels(p: Point, level: u32) -> (f64, f64) {
    let scale = (1u64 << level) as f64;
    (p.x as f64 / scale, p.y as f64 / scale)
}

fn corners(d: &Draw) -> [(f64, f64); 3] {
    [
        in_pixels(d.triangle.top, d.level),
        in_pixels(d.triangle.left, d.level),
        in_pixels(d.triangle.right, d.level),
    ]
}

fn sampled(c: Color) -> bool {
    c.red < 255 && c.green < 255 && c.blue < 255
}

#[test]
fn depth_one_draws_the_root_once_in_green() {
    let draws = sierpinski(&root(), green(), 1);
    assert_eq!(draws.len(), 1);
    assert_eq!(draws[0], Draw { triangle: root(), color: green(), level: 0 });
}

#[test]
fn depth_two_draws_root_and_three_midpoint_children() {
    let draws = sierpinski(&root(), green(), 2);
    assert_eq!(draws.len(), 4);
    assert_eq!(draws[0], Draw { triangle: root(), color: green(), level: 0 });
    assert_eq!(corners(&draws[1]), [(300.0, 0.0), (150.0, 300.0), (450.0, 300.0)]);
    assert_eq!(corners(&draws[2]), [(150.0, 300.0), (0.0, 600.0), (300.0, 600.0)]);
    assert_eq!(corners(&draws[3]), [(450.0, 300.0), (300.0, 600.0), (600.0, 600.0)]);
    assert_eq!(draws[1].color, draws[2].color);
    assert_eq!(draws[2].color, draws[3].color);
    assert!(sampled(draws[1].color));
}

#[test]
fn depth_zero_draws_the_root_only() {
    let draws = sierpinski(&root(), green(), 0);
    assert_eq!(draws.len(), 1);
    assert_eq!(draws[0], Draw { triangle: root(), color: green(), level: 0 });
}

#[test]
fn draw_counts_follow_the_closed_form() {
    for (depth, expected) in [(0u8, 1usize), (1, 1), (2, 4), (3, 13), (4, 40), (6, 364)] {
        assert_eq!(sierpinski(&root(), green(), depth).len(), expected);
    }
    let deepest = sierpinski(&root(), green(), 6);
    assert_eq!(deepest.iter().filter(|d| d.level == 5).count(), 243);
}

#[test]
fn random_colors_stay_below_255() {
    let mut seen = Vec::new();
    for _ in 0..200 {
        let c = random_color();
        assert!(sampled(c));
        seen.push(c);
    }
    assert!(seen.iter().any(|c| *c != seen[0]));
    let draws = sierpinski(&root(), green(), 5);
    assert!(draws[1..].iter().all(|d| sampled(d.color)));
}

#[test]
fn two_renders_share_their_geometry() {
    let a = sierpinski(&root(), green(), 5);
    let b = sierpinski(&root(), Color { red: 9, green: 8, blue: 7 }, 5);
    assert_eq!(a.len(), b.len());
    for (x, y) in a.iter().zip(b.iter()) {
        assert_eq!(x.triangle, y.triangle);
        assert_eq!(x.level, y.level);
    }
}

#[test]
fn fresh_colours_are_used_in_subdivision_order() {
    let cs: Vec<Color> = (0u8..4).map(|i| Color { red: i, green: 10 + i, blue: 20 + i }).collect();
    let draws = sierpinski_with_colors(&root(), green(), 3, &cs);
    assert_eq!(draws.len(), 13);
    let colours: Vec<Color> = draws.iter().map(|d| d.color).collect();
    let expected = vec![
        green(), cs[0], cs[1], cs[1], cs[1], cs[0], cs[2], cs[2], cs[2], cs[0], cs[3], cs[3], cs[3],
    ];
    assert_eq!(colours, expected);
    let levels: Vec<u32> = draws.iter().map(|d| d.level).collect();
    assert_eq!(levels, vec![0, 1, 2, 2, 2, 1, 2, 2, 2, 1, 2, 2, 2]);
    assert_eq!(corners(&draws[2]), [(300.0, 0.0), (225.0, 150.0), (375.0, 150.0)]);
    assert_eq!(corners(&draws[12]), [(525.0, 450.0), (450.0, 600.0), (600.0, 600.0)]);
}

#[test]
fn extra_colours_are_ignored() {
    let cs = vec![Color { red: 1, green: 2, blue: 3 }, Color { red: 4, green: 5, blue: 6 }];
    let draws = sierpinski_with_colors(&root(), green(), 2, &cs);
    assert_eq!(draws.len(), 4);
    assert!(draws[1..].iter().all(|d| d.color == cs[0]));
}

#[test]
fn colour_counts() {
    assert_eq!(color_count(0), 0);
    assert_eq!(color_count(1), 0);
    assert_eq!(color_count(2), 1);
    assert_eq!(color_count(3), 4);
    assert_eq!(color_count(6), 121);
}

#[test]
fn midpoints_are_exact_one_level_down() {
    assert_eq!(mid_point(pt(300, 0), pt(0, 600)), pt(300, 600));
    assert_eq!(mid_point(pt(-7, 3), pt(2, -8)), pt(-5, -5));
    assert_eq!(refine(pt(-7, 3)), pt(-14, 6));
    let (a, b, c) = subdivide(&tri((1, 0), (0, 1), (3, 3)));
    assert_eq!(a, tri((2, 0), (1, 1), (4, 3)));
    assert_eq!(b, tri((1, 1), (0, 2), (3, 4)));
    assert_eq!(c, tri((4, 3), (3, 4), (6, 6)));
}

#[test]
fn odd_coordinates_halve_without_rounding() {
    let t = tri((1, 0), (0, 1), (1, 1));
    let draws = sierpinski(&t, green(), 3);
    assert_eq!(draws.len(), 13);
    assert_eq!(corners(&draws[2]), [(1.0, 0.0), (0.75, 0.25), (1.0, 0.25)]);
}

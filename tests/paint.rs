use sierpinski::geometry::{Point, Triangle};
use sierpinski::paint::{draw_triangle, fill_style, Color, PathOp};

#[test]
fn fill_style_is_css_rgb() {
    assert_eq!(fill_style(Color { red: 0, green: 255, blue: 0 }), "rgb(0,255,0)");
    assert_eq!(fill_style(Color { red: 7, green: 42, blue: 254 }), "rgb(7,42,254)");
    assert_eq!(fill_style(Color { red: 100, green: 10, blue: 1 }), "rgb(100,10,1)");
}

#[test]
fn triangle_path_is_begun_closed_stroked_and_filled() {
    let t = Triangle {
        top: Point { x: 300, y: 0 },
        left: Point { x: 0, y: 600 },
        right: Point { x: 600, y: 600 },
    };
    let ops = draw_triangle(&t, Color { red: 12, green: 0, blue: 200 });
    assert_eq!(ops.len(), 9);
    assert!(matches!(ops[0], PathOp::BeginPath));
    assert!(matches!(ops[1], PathOp::MoveTo(p) if p == t.top));
    assert!(matches!(ops[2], PathOp::LineTo(p) if p == t.left));
    assert!(matches!(ops[3], PathOp::LineTo(p) if p == t.right));
    assert!(matches!(ops[4], PathOp::LineTo(p) if p == t.top));
    assert!(matches!(ops[5], PathOp::ClosePath));
    assert!(matches!(ops[6], PathOp::Stroke));
    assert!(matches!(&ops[7], PathOp::SetFillStyle(s) if s == "rgb(12,0,200)"));
    assert!(matches!(ops[8], PathOp::Fill));
}

use vstd::prelude::*;
use vstd::string::StringExecFns;
use crate::geometry::{Point, Triangle};

verus! {

/// An opaque fill colour, one byte per channel.
#[derive(Clone, Copy, Debug, PartialEq, Eq, Structural)]
pub struct Color {
    pub red: u8,
    pub green: u8,
    pub blue: u8,
}

/// One command to a 2D drawing surface. Points are on the grid level of the
/// triangle they came from.
#[derive(Clone, Debug)]
pub enum PathOp {
    BeginPath,
    MoveTo(Point),
    LineTo(Point),
    ClosePath,
    Stroke,
    SetFillStyle(String),
    Fill,
}

/// The decimal digit `d` as a character.
pub open spec fn digit_char(d: nat) -> char {
    seq!['0', '1', '2', '3', '4', '5', '6', '7', '8', '9'][d as int]
}

/// The decimal numeral of `n`, without leading zeros.
pub open spec fn decimal(n: nat) -> Seq<char>
    decreases n,
{
    if n < 10 {
        seq![digit_char(n)]
    } else {
        decimal(n / 10).push(digit_char(n % 10))
    }
}

/// The CSS colour text `rgb(R,G,B)` of `c`, channels in decimal.
pub open spec fn fill_text(c: Color) -> Seq<char> {
    seq!['r', 'g', 'b', '('] + decimal(c.red as nat) + seq![','] + decimal(c.green as nat)
        + seq![','] + decimal(c.blue as nat) + seq![')']
}

/// The path commands that outline and fill `t` in colour `c`.
pub open spec fn triangle_ops_match(ops: Seq<PathOp>, t: Triangle, c: Color) -> bool {
    &&& ops.len() == 9
    &&& ops[0] is BeginPath
    &&& ops[1] == PathOp::MoveTo(t.top)
    &&& ops[2] == PathOp::LineTo(t.left)
    &&& ops[3] == PathOp::LineTo(t.right)
    &&& ops[4] == PathOp::LineTo(t.top)
    &&& ops[5] is ClosePath
    &&& ops[6] is Stroke
    &&& ops[7] matches PathOp::SetFillStyle(s) && s@ == fill_text(c)
    &&& ops[8] is Fill
}

fn digit_str(d: u8) -> (r: &'static str)
    requires
        d < 10,
    ensures
        r@ == seq![digit_char(d as nat)],
{
    proof {
        reveal_strlit("0");
        reveal_strlit("1");
        reveal_strlit("2");
        reveal_strlit("3");
        reveal_strlit("4");
        reveal_strlit("5");
        reveal_strlit("6");
        reveal_strlit("7");
        reveal_strlit("8");
        reveal_strlit("9");
    }
    let r = if d == 0 {
        "0"
    } else if d == 1 {
        "1"
    } else if d == 2 {
        "2"
    } else if d == 3 {
        "3"
    } else if d == 4 {
        "4"
    } else if d == 5 {
        "5"
    } else if d == 6 {
        "6"
    } else if d == 7 {
        "7"
    } else if d == 8 {
        "8"
    } else {
        "9"
    };
    assert(r@ =~= seq![digit_char(d as nat)]);
    r
}

/// Appends the decimal numeral of `n` to `s`.
fn push_decimal(s: &mut String, n: u8)
    ensures
        final(s)@ == old(s)@ + decimal(n as nat),
{
    if n >= 100 {
        s.append(digit_str(n / 100));
    }
    if n >= 10 {
        s.append(digit_str((n / 10) % 10));
    }
    s.append(digit_str(n % 10));
    proof {
        reveal_with_fuel(decimal, 3);
        let k = n as nat;
        if k >= 100 {
            assert(k / 10 / 10 == k / 100);
            assert(decimal(k) =~= seq![digit_char(k / 100), digit_char((k / 10) % 10), digit_char(k % 10)]);
        } else if k >= 10 {
            assert(decimal(k) =~= seq![digit_char(k / 10), digit_char(k % 10)]);
        }
    }
    assert(final(s)@ =~= old(s)@ + decimal(n as nat));
}

/// The fill style of colour `c` as CSS text, `rgb(R,G,B)`.
pub fn fill_style(c: Color) -> (r: String)
    ensures
        r@ == fill_text(c),
{
    proof {
        reveal_strlit("rgb(");
        reveal_strlit(",");
        reveal_strlit(")");
    }
    let mut s = String::from_str("rgb(");
    push_decimal(&mut s, c.red);
    s.append(",");
    push_decimal(&mut s, c.green);
    s.append(",");
    push_decimal(&mut s, c.blue);
    s.append(")");
    assert(s@ =~= fill_text(c));
    s
}

/// The commands that draw `t` in colour `c`: a closed path top, left, right,
/// stroked in the surface's own stroke style, then filled with `c`. The path
/// is begun before the first move, so that the move belongs to this path and
/// not to whatever the surface held before.
pub fn draw_triangle(t: &Triangle, c: Color) -> (r: Vec<PathOp>)
    ensures
        triangle_ops_match(r@, *t, c),
{
    let mut ops: Vec<PathOp> = Vec::new();
    ops.push(PathOp::BeginPath);
    ops.push(PathOp::MoveTo(t.top));
    ops.push(PathOp::LineTo(t.left));
    ops.push(PathOp::LineTo(t.right));
    ops.push(PathOp::LineTo(t.top));
    ops.push(PathOp::ClosePath);
    ops.push(PathOp::Stroke);
    ops.push(PathOp::SetFillStyle(fill_style(c)));
    ops.push(PathOp::Fill);
    ops
}

} // verus!

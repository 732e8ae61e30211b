use vstd::prelude::*;
use vstd::arithmetic::power::pow;
use vstd::arithmetic::power2::{pow2, lemma_pow2_unfold};
use rand::Rng;
use crate::geometry::{
    abs, left_child, right_child, subdivide, top_child, within, Triangle, HALF_RANGE,
};
use crate::paint::Color;

verus! {

/// One triangle to draw. Its corners are on grid level `level`: a coordinate
/// `v` there stands for `v / 2^level` in the units of the root triangle.
#[derive(Clone, Copy, Debug, PartialEq, Eq, Structural)]
pub struct Draw {
    pub triangle: Triangle,
    pub color: Color,
    pub level: u32,
}

/// A colour that the random step can produce: every channel in `0..=254`.
pub open spec fn sampled(c: Color) -> bool {
    c.red < 255 && c.green < 255 && c.blue < 255
}

/// How many fresh colours a render of the given depth picks: one for every
/// triangle that is subdivided.
pub open spec fn colors_needed(depth: nat) -> nat
    decreases depth,
{
    if depth >= 2 {
        1 + 3 * colors_needed((depth - 1) as nat)
    } else {
        0
    }
}

/// How many triangles a render of the given depth draws.
pub open spec fn draw_count(depth: nat) -> nat
    decreases depth,
{
    if depth >= 2 {
        1 + 3 * draw_count((depth - 1) as nat)
    } else {
        1
    }
}

/// How many times a render of the given depth halves the root.
pub open spec fn halvings(depth: nat) -> nat {
    if depth >= 1 {
        (depth - 1) as nat
    } else {
        0
    }
}

/// The largest coordinate magnitude among the corners of `t`.
pub open spec fn max_abs(t: Triangle) -> int {
    let a = if abs(t.top.x as int) >= abs(t.top.y as int) { abs(t.top.x as int) } else { abs(t.top.y as int) };
    let b = if abs(t.left.x as int) >= abs(t.left.y as int) { abs(t.left.x as int) } else { abs(t.left.y as int) };
    let c = if abs(t.right.x as int) >= abs(t.right.y as int) { abs(t.right.x as int) } else { abs(t.right.y as int) };
    let ab = if a >= b { a } else { b };
    if ab >= c { ab } else { c }
}

/// Every grid level that a render of `t` to the given depth reaches still
/// holds its coordinates in `i64`.
pub open spec fn fits(t: Triangle, depth: nat) -> bool {
    max_abs(t) * pow2(halvings(depth)) <= i64::MAX
}

/// The draws of a render of `t` in colour `c` to the given depth, with `t` on
/// grid level `level` and the fresh colours taken from `cs` in the order in
/// which the triangles are subdivided: `t` first, then the whole top branch,
/// the whole left branch, the whole right branch. Each subdivided triangle
/// hands one fresh colour to all three of its children.
pub open spec fn plan(t: Triangle, c: Color, depth: nat, level: nat, cs: Seq<Color>) -> Seq<Draw>
    decreases depth,
{
    let here = seq![Draw { triangle: t, color: c, level: level as u32 }];
    if depth >= 2 {
        let k: int = colors_needed((depth - 1) as nat) as int;
        let next = cs[0];
        let d = (depth - 1) as nat;
        here + plan(top_child(t), next, d, level + 1, cs.subrange(1, 1 + k))
            + plan(left_child(t), next, d, level + 1, cs.subrange(1 + k, 1 + 2 * k))
            + plan(right_child(t), next, d, level + 1, cs.subrange(1 + 2 * k, 1 + 3 * k))
    } else {
        here
    }
}

/// The triangles of a render of `t` to the given depth with their grid
/// levels, in drawing order, colours left out.
pub open spec fn outline(t: Triangle, depth: nat, level: nat) -> Seq<(Triangle, u32)>
    decreases depth,
{
    let here = seq![(t, level as u32)];
    if depth >= 2 {
        let d = (depth - 1) as nat;
        here + outline(top_child(t), d, level + 1) + outline(left_child(t), d, level + 1)
            + outline(right_child(t), d, level + 1)
    } else {
        here
    }
}

/// The shapes of a list of draws: each triangle with its grid level.
pub open spec fn shapes(s: Seq<Draw>) -> Seq<(Triangle, u32)> {
    s.map_values(|d: Draw| (d.triangle, d.level))
}

proof fn lemma_max_abs_bounds(t: Triangle)
    ensures
        within(t, max_abs(t)),
        max_abs(t) >= 0,
        forall|m: int| #[trigger] within(t, m) ==> max_abs(t) <= m,
{
}

/// The children of a triangle that fits a depth of two or more fit one
/// level less.
proof fn lemma_children_fit(t: Triangle, depth: nat)
    requires
        depth >= 2,
        fits(t, depth),
    ensures
        within(t, HALF_RANGE as int),
        fits(top_child(t), (depth - 1) as nat),
        fits(left_child(t), (depth - 1) as nat),
        fits(right_child(t), (depth - 1) as nat),
{
    let m = max_abs(t);
    let e = halvings(depth);
    let p = pow2((e - 1) as nat);
    lemma_max_abs_bounds(t);
    lemma_pow2_unfold(e);
    assert(p >= 1) by {
        vstd::arithmetic::power2::lemma_pow2_pos((e - 1) as nat);
    }
    assert(m * 2 <= i64::MAX) by (nonlinear_arith)
        requires
            m * (2 * p) <= i64::MAX,
            p >= 1,
            m >= 0,
    {
    }
    assert(within(t, HALF_RANGE as int));
    assert((2 * m) * p <= i64::MAX) by (nonlinear_arith)
        requires
            m * (2 * p) <= i64::MAX,
    {
    }
    assert(within(top_child(t), 2 * m));
    assert(within(left_child(t), 2 * m));
    assert(within(right_child(t), 2 * m));
    lemma_max_abs_bounds(top_child(t));
    lemma_max_abs_bounds(left_child(t));
    lemma_max_abs_bounds(right_child(t));
    assert(halvings((depth - 1) as nat) == e - 1);
    assert forall|u: int| 0 <= u <= 2 * m implies #[trigger] (u * p) <= i64::MAX by {
        assert(u * p <= (2 * m) * p) by (nonlinear_arith)
            requires
                0 <= u <= 2 * m,
                p >= 1,
        {
        }
    }
    assert(max_abs(top_child(t)) * p <= i64::MAX);
    assert(max_abs(left_child(t)) * p <= i64::MAX);
    assert(max_abs(right_child(t)) * p <= i64::MAX);
}

/// Appends the draws of `plan(*t, c, depth, level, ..)` to `out`, taking the
/// fresh colours from `colors` starting at `pos`; returns the position after
/// the last colour taken.
fn render_into(
    out: &mut Vec<Draw>,
    t: &Triangle,
    c: Color,
    depth: u8,
    level: u32,
    colors: &Vec<Color>,
    pos: usize,
) -> (next: usize)
    requires
        fits(*t, depth as nat),
        level + depth <= 255,
        pos + colors_needed(depth as nat) <= colors@.len(),
    ensures
        next == pos + colors_needed(depth as nat),
        final(out)@ == old(out)@ + plan(*t, c, depth as nat, level as nat, colors@.subrange(pos as int, next as int)),
    decreases depth,
{
    out.push(Draw { triangle: *t, color: c, level });
    if depth >= 2 {
        let ghost k: int = colors_needed((depth - 1) as nat) as int;
        let available = colors.len();
        assert(pos + 1 <= available);
        let next_color = colors[pos];
        proof {
            lemma_children_fit(*t, depth as nat);
            assert(colors_needed(depth as nat) == 1 + 3 * k);
        }
        let (top, left, right) = subdivide(t);
        let p1 = render_into(out, &top, next_color, depth - 1, level + 1, colors, pos + 1);
        let p2 = render_into(out, &left, next_color, depth - 1, level + 1, colors, p1);
        let p3 = render_into(out, &right, next_color, depth - 1, level + 1, colors, p2);
        proof {
            let cs = colors@.subrange(pos as int, p3 as int);
            assert(cs.subrange(1, 1 + k) =~= colors@.subrange(pos + 1, p1 as int));
            assert(cs.subrange(1 + k, 1 + 2 * k) =~= colors@.subrange(p1 as int, p2 as int));
            assert(cs.subrange(1 + 2 * k, 1 + 3 * k) =~= colors@.subrange(p2 as int, p3 as int));
            assert(cs[0] == next_color);
            assert(final(out)@ =~= old(out)@ + plan(*t, c, depth as nat, level as nat, cs));
        }
        p3
    } else {
        proof {
            assert(final(out)@ =~= old(out)@ + plan(*t, c, depth as nat, level as nat, colors@.subrange(pos as int, pos as int)));
        }
        pos
    }
}

proof fn lemma_colors_needed_monotonic(i: nat, j: nat)
    requires
        i <= j,
    ensures
        colors_needed(i) <= colors_needed(j),
    decreases j,
{
    if i < j {
        lemma_colors_needed_monotonic(i, (j - 1) as nat);
    }
}

/// The number of fresh colours that a render of the given depth picks.
pub fn color_count(depth: u8) -> (r: usize)
    requires
        colors_needed(depth as nat) <= usize::MAX,
    ensures
        r == colors_needed(depth as nat),
{
    let mut n: usize = 0;
    let mut i: u8 = 1;
    while i < depth
        invariant
            1 <= i,
            i <= depth || i == 1,
            n == colors_needed(i as nat),
            colors_needed(depth as nat) <= usize::MAX,
        decreases depth - i,
    {
        proof {
            lemma_colors_needed_monotonic((i + 1) as nat, depth as nat);
        }
        n = 1 + 3 * n;
        i = i + 1;
    }
    assert(colors_needed(0) == 0 && colors_needed(1) == 0);
    n
}

/// The draws of a render of `root` in colour `color` to `depth`, with the
/// fresh colours taken from `colors` in order. `root` is on grid level 0.
/// The root is always drawn, also at depth 0; below depth 2 nothing is
/// subdivided.
pub fn sierpinski_with_colors(
    root: &Triangle,
    color: Color,
    depth: u8,
    colors: &Vec<Color>,
) -> (r: Vec<Draw>)
    requires
        fits(*root, depth as nat),
        colors_needed(depth as nat) <= colors@.len(),
    ensures
        r@ == plan(*root, color, depth as nat, 0, colors@.take(colors_needed(depth as nat) as int)),
{
    let mut out: Vec<Draw> = Vec::new();
    render_into(&mut out, root, color, depth, 0, colors, 0);
    assert(out@ =~= plan(*root, color, depth as nat, 0, colors@.take(colors_needed(depth as nat) as int)));
    out
}

/// Relies on rand's `thread_rng` and `Rng::gen_range`: a value drawn from
/// `0..255`, a range that is not empty, so the call does not panic.
#[verifier::external_body]
fn random_channel() -> (r: u8)
    ensures
        r < 255,
{
    rand::thread_rng().gen_range(0..255)
}

/// A fresh colour: each channel drawn on its own from `0..=254`.
pub fn random_color() -> (c: Color)
    ensures
        sampled(c),
{
    let red = random_channel();
    let green = random_channel();
    let blue = random_channel();
    Color { red, green, blue }
}

/// A render of `root` in colour `color` to `depth`, with fresh colours drawn
/// at random. Whatever the draws came out as, the result is the plan for
/// some list of sampled colours of the needed length.
pub fn sierpinski(root: &Triangle, color: Color, depth: u8) -> (r: Vec<Draw>)
    requires
        fits(*root, depth as nat),
        colors_needed(depth as nat) <= usize::MAX,
    ensures
        exists|cs: Seq<Color>|
            {
                &&& cs.len() == colors_needed(depth as nat)
                &&& forall|i: int| 0 <= i < cs.len() ==> sampled(#[trigger] cs[i])
                &&& r@ == plan(*root, color, depth as nat, 0, cs)
            },
{
    let n = color_count(depth);
    let mut colors: Vec<Color> = Vec::new();
    while colors.len() < n
        invariant
            colors@.len() <= n,
            forall|i: int| 0 <= i < colors@.len() ==> sampled(#[trigger] colors@[i]),
        decreases n - colors@.len(),
    {
        colors.push(random_color());
    }
    let r = sierpinski_with_colors(root, color, depth, &colors);
    assert(colors@.take(n as int) =~= colors@);
    r
}

proof fn lemma_shapes_concat(a: Seq<Draw>, b: Seq<Draw>)
    ensures
        shapes(a + b) == shapes(a) + shapes(b),
{
    assert(shapes(a + b) =~= shapes(a) + shapes(b));
}

proof fn lemma_plan_shape(t: Triangle, c: Color, depth: nat, level: nat, cs: Seq<Color>)
    ensures
        plan(t, c, depth, level, cs).len() == draw_count(depth),
        shapes(plan(t, c, depth, level, cs)) == outline(t, depth, level),
    decreases depth,
{
    let here = seq![Draw { triangle: t, color: c, level: level as u32 }];
    assert(shapes(here) =~= seq![(t, level as u32)]);
    if depth >= 2 {
        let k: int = colors_needed((depth - 1) as nat) as int;
        let next = cs[0];
        let d = (depth - 1) as nat;
        let a = plan(top_child(t), next, d, level + 1, cs.subrange(1, 1 + k));
        let b = plan(left_child(t), next, d, level + 1, cs.subrange(1 + k, 1 + 2 * k));
        let e = plan(right_child(t), next, d, level + 1, cs.subrange(1 + 2 * k, 1 + 3 * k));
        lemma_plan_shape(top_child(t), next, d, level + 1, cs.subrange(1, 1 + k));
        lemma_plan_shape(left_child(t), next, d, level + 1, cs.subrange(1 + k, 1 + 2 * k));
        lemma_plan_shape(right_child(t), next, d, level + 1, cs.subrange(1 + 2 * k, 1 + 3 * k));
        lemma_shapes_concat(here, a);
        lemma_shapes_concat(here + a, b);
        lemma_shapes_concat(here + a + b, e);
    }
}

proof fn lemma_draw_count_closed(depth: nat)
    requires
        depth >= 1,
    ensures
        2 * draw_count(depth) + 1 == pow(3, depth),
    decreases depth,
{
    reveal(pow);
    if depth >= 2 {
        lemma_draw_count_closed((depth - 1) as nat);
    } else {
        assert(pow(3, 0) == 1);
    }
}

/// A render to depth `depth` draws `(3^depth - 1) / 2` triangles when
/// `depth >= 1`: the root, its three children, their nine, down to
/// `3^(depth - 1)` at the last level. At depth 0 and 1 it draws the root
/// alone.
pub proof fn lemma_render_draw_count(root: Triangle, color: Color, depth: nat, cs: Seq<Color>)
    ensures
        plan(root, color, depth, 0, cs).len() == draw_count(depth),
        depth >= 1 ==> 2 * plan(root, color, depth, 0, cs).len() + 1 == pow(3, depth),
        depth <= 1 ==> plan(root, color, depth, 0, cs) == seq![Draw { triangle: root, color, level: 0 }],
{
    lemma_plan_shape(root, color, depth, 0, cs);
    if depth >= 1 {
        lemma_draw_count_closed(depth);
    }
}

/// Only the colours are random: two renders of the same triangle to the same
/// depth draw the same triangles on the same grid levels in the same order,
/// whatever the starting colour and the fresh colours.
pub proof fn lemma_render_geometry_repeats(
    root: Triangle,
    c1: Color,
    c2: Color,
    depth: nat,
    cs1: Seq<Color>,
    cs2: Seq<Color>,
)
    ensures
        shapes(plan(root, c1, depth, 0, cs1)) == shapes(plan(root, c2, depth, 0, cs2)),
        shapes(plan(root, c1, depth, 0, cs1)) == outline(root, depth, 0),
{
    lemma_plan_shape(root, c1, depth, 0, cs1);
    lemma_plan_shape(root, c2, depth, 0, cs2);
}

/// A render to depth two or more draws the root first and then recurses
/// into exactly the three corner triangles of its midpoint subdivision, top,
/// left and right in that order, one grid level down, all in the first fresh
/// colour. The central triangle is never drawn there.
pub proof fn lemma_render_recurses_into_corners(root: Triangle, color: Color, depth: nat, cs: Seq<Color>)
    requires
        depth >= 2,
    ensures
        ({
            let p = plan(root, color, depth, 0, cs);
            let n = draw_count((depth - 1) as nat) as int;
            &&& p[0] == Draw { triangle: root, color, level: 0 }
            &&& p[1] == Draw { triangle: top_child(root), color: cs[0], level: 1 }
            &&& p[1 + n] == Draw { triangle: left_child(root), color: cs[0], level: 1 }
            &&& p[1 + 2 * n] == Draw { triangle: right_child(root), color: cs[0], level: 1 }
            &&& p.len() == 1 + 3 * n
        }),
{
    let k: int = colors_needed((depth - 1) as nat) as int;
    let d = (depth - 1) as nat;
    lemma_plan_shape(top_child(root), cs[0], d, 1, cs.subrange(1, 1 + k));
    lemma_plan_shape(left_child(root), cs[0], d, 1, cs.subrange(1 + k, 1 + 2 * k));
    lemma_plan_shape(right_child(root), cs[0], d, 1, cs.subrange(1 + 2 * k, 1 + 3 * k));
    assert(draw_count(d) >= 1) by {
        reveal_with_fuel(draw_count, 2);
    }
}

/// How many draws of `s` are on grid level `level`.
pub open spec fn count_at(s: Seq<Draw>, level: u32) -> nat
    decreases s.len(),
{
    if s.len() == 0 {
        0
    } else {
        count_at(s.drop_last(), level) + if s.last().level == level { 1nat } else { 0nat }
    }
}

/// How many grid levels a render of the given depth draws on.
pub open spec fn level_span(depth: nat) -> nat {
    if depth >= 1 {
        depth
    } else {
        1
    }
}

proof fn lemma_count_at_concat(a: Seq<Draw>, b: Seq<Draw>, level: u32)
    ensures
        count_at(a + b, level) == count_at(a, level) + count_at(b, level),
    decreases b.len(),
{
    if b.len() > 0 {
        assert((a + b).drop_last() =~= a + b.drop_last());
        lemma_count_at_concat(a, b.drop_last(), level);
    } else {
        assert(a + b =~= a);
    }
}

proof fn lemma_count_at_single(x: Draw, level: u32)
    ensures
        count_at(seq![x], level) == if x.level == level { 1nat } else { 0nat },
{
    assert(seq![x].drop_last() =~= Seq::<Draw>::empty());
    assert(count_at(Seq::<Draw>::empty(), level) == 0);
}

proof fn lemma_count_at_absent(s: Seq<Draw>, level: u32)
    requires
        forall|i: int| 0 <= i < s.len() ==> #[trigger] s[i].level != level,
    ensures
        count_at(s, level) == 0,
    decreases s.len(),
{
    if s.len() > 0 {
        lemma_count_at_absent(s.drop_last(), level);
    }
}

proof fn lemma_plan_levels(t: Triangle, c: Color, depth: nat, level: nat, cs: Seq<Color>)
    requires
        level + level_span(depth) <= u32::MAX,
    ensures
        forall|i: int| 0 <= i < plan(t, c, depth, level, cs).len() ==> {
            let v = #[trigger] plan(t, c, depth, level, cs)[i].level;
            level <= v < level + level_span(depth)
        },
        forall|k: nat| k < level_span(depth) ==> #[trigger] count_at(plan(t, c, depth, level, cs), (level + k) as u32) == pow(3, k),
    decreases depth,
{
    reveal(pow);
    let p = plan(t, c, depth, level, cs);
    let here = seq![Draw { triangle: t, color: c, level: level as u32 }];
    lemma_count_at_single(here[0], level as u32);
    assert(here =~= seq![here[0]]);
    if depth >= 2 {
        let k0: int = colors_needed((depth - 1) as nat) as int;
        let next = cs[0];
        let d = (depth - 1) as nat;
        let a = plan(top_child(t), next, d, level + 1, cs.subrange(1, 1 + k0));
        let b = plan(left_child(t), next, d, level + 1, cs.subrange(1 + k0, 1 + 2 * k0));
        let e = plan(right_child(t), next, d, level + 1, cs.subrange(1 + 2 * k0, 1 + 3 * k0));
        lemma_plan_levels(top_child(t), next, d, level + 1, cs.subrange(1, 1 + k0));
        lemma_plan_levels(left_child(t), next, d, level + 1, cs.subrange(1 + k0, 1 + 2 * k0));
        lemma_plan_levels(right_child(t), next, d, level + 1, cs.subrange(1 + 2 * k0, 1 + 3 * k0));
        assert(p == here + a + b + e);
        assert forall|i: int| 0 <= i < p.len() implies {
            let v = #[trigger] p[i].level;
            level <= v < level + level_span(depth)
        } by {
            if i >= 1 + a.len() + b.len() {
                assert(p[i] == e[i - 1 - a.len() - b.len()]);
            } else if i >= 1 + a.len() {
                assert(p[i] == b[i - 1 - a.len()]);
            } else if i >= 1 {
                assert(p[i] == a[i - 1]);
            }
        }
        assert forall|k: nat| k < level_span(depth) implies #[trigger] count_at(p, (level + k) as u32) == pow(3, k) by {
            let lv = (level + k) as u32;
            lemma_count_at_concat(here, a, lv);
            lemma_count_at_concat(here + a, b, lv);
            lemma_count_at_concat(here + a + b, e, lv);
            if k == 0 {
                lemma_count_at_absent(a, lv);
                lemma_count_at_absent(b, lv);
                lemma_count_at_absent(e, lv);
            } else {
                let j = (k - 1) as nat;
                assert((level + 1 + j) as u32 == lv);
                assert(count_at(a, lv) == pow(3, j));
                assert(count_at(b, lv) == pow(3, j));
                assert(count_at(e, lv) == pow(3, j));
                lemma_count_at_single(here[0], lv);
            }
        }
    } else {
        assert(p == here);
        assert forall|k: nat| k < level_span(depth) implies #[trigger] count_at(p, (level + k) as u32) == pow(3, k) by {
            assert(k == 0);
        }
    }
}

/// Each grid level of a render holds three times as many triangles as the
/// one above: `3^k` on level `k`, for every level the render reaches, and
/// no triangle lies outside levels `0 .. level_span(depth)`. In particular
/// the last level of a render to `depth >= 1` holds `3^(depth - 1)`.
pub proof fn lemma_render_triples_per_level(root: Triangle, color: Color, depth: nat, cs: Seq<Color>, k: nat)
    requires
        depth <= 255,
        k < level_span(depth),
    ensures
        count_at(plan(root, color, depth, 0, cs), k as u32) == pow(3, k),
        forall|i: int| 0 <= i < plan(root, color, depth, 0, cs).len() ==>
            #[trigger] plan(root, color, depth, 0, cs)[i].level < level_span(depth),
{
    lemma_plan_levels(root, color, depth, 0, cs);
    assert(count_at(plan(root, color, depth, 0, cs), (0 + k) as u32) == pow(3, k));
    assert((0 + k) as u32 == k as u32);
}

} // verus!

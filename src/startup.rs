use vstd::prelude::*;
use vstd::arithmetic::power2::{pow2, lemma2_to64};
use crate::geometry::{Point, Triangle};
use crate::paint::Color;
use crate::render::{colors_needed, fits, max_abs, sierpinski, Draw, plan, sampled};

verus! {

/// Where the one-shot startup stands.
#[derive(Clone, Copy, Debug, PartialEq, Eq, Structural)]
pub enum Stage {
    /// Nothing requested yet.
    Idle,
    /// The sprite was requested; waiting for its load notice.
    AwaitingImage,
    /// The sprite was drawn and the fractal rendered.
    Finished,
}

/// What the host reports.
#[derive(Clone, Copy, Debug, PartialEq, Eq, Structural)]
pub enum Event {
    /// The host has started the program.
    Start,
    /// The sprite has finished loading.
    ImageLoaded,
}

/// What the host is asked to do next.
#[derive(Clone, Copy, Debug, PartialEq, Eq, Structural)]
pub enum Action {
    /// Request the sprite and wait for its load notice.
    LoadImage,
    /// Draw the sprite at the origin, then render the fractal.
    DrawImageAndRender,
    /// Nothing to do.
    Ignore,
}

/// The startup rule: request the sprite once, draw and render once it has
/// loaded, and ignore everything else. A load notice before the request, or
/// a second one, changes nothing.
pub open spec fn next_step(stage: Stage, event: Event) -> (Stage, Action) {
    match (stage, event) {
        (Stage::Idle, Event::Start) => (Stage::AwaitingImage, Action::LoadImage),
        (Stage::AwaitingImage, Event::ImageLoaded) => (Stage::Finished, Action::DrawImageAndRender),
        _ => (stage, Action::Ignore),
    }
}

/// One step of the startup.
pub fn step(stage: Stage, event: Event) -> (r: (Stage, Action))
    ensures
        r == next_step(stage, event),
{
    match (stage, event) {
        (Stage::Idle, Event::Start) => (Stage::AwaitingImage, Action::LoadImage),
        (Stage::AwaitingImage, Event::ImageLoaded) => (Stage::Finished, Action::DrawImageAndRender),
        _ => (stage, Action::Ignore),
    }
}

/// Runs the startup rule over a list of host reports from `Idle`.
pub open spec fn run(events: Seq<Event>) -> (Stage, Seq<Action>)
    decreases events.len(),
{
    if events.len() == 0 {
        (Stage::Idle, Seq::empty())
    } else {
        let (stage, actions) = run(events.drop_last());
        let (next, action) = next_step(stage, events.last());
        (next, actions.push(action))
    }
}

/// How many times `a` occurs in `actions`.
pub open spec fn count(actions: Seq<Action>, a: Action) -> nat
    decreases actions.len(),
{
    if actions.len() == 0 {
        0
    } else {
        count(actions.drop_last(), a) + if actions.last() == a { 1nat } else { 0nat }
    }
}

/// What the actions so far say of the stage reached.
pub open spec fn consistent(stage: Stage, actions: Seq<Action>) -> bool {
    let loads = count(actions, Action::LoadImage);
    let renders = count(actions, Action::DrawImageAndRender);
    match stage {
        Stage::Idle => loads == 0 && renders == 0,
        Stage::AwaitingImage => loads == 1 && renders == 0,
        Stage::Finished => loads == 1 && renders == 1,
    }
}

proof fn lemma_run_consistent(events: Seq<Event>)
    ensures
        run(events).1.len() == events.len(),
        consistent(run(events).0, run(events).1),
    decreases events.len(),
{
    if events.len() > 0 {
        let prefix = events.drop_last();
        lemma_run_consistent(prefix);
        let actions = run(prefix).1;
        let action = next_step(run(prefix).0, events.last()).1;
        assert(actions.push(action).drop_last() =~= actions);
    }
}

/// Whatever the host reports, and in whatever order, the sprite is requested
/// at most once and the fractal rendered at most once, never before the
/// request. Every prefix of the reports is a run too, so at no point have
/// there been more renders than requests.
pub proof fn lemma_render_at_most_once(events: Seq<Event>)
    ensures
        count(run(events).1, Action::DrawImageAndRender) <= count(run(events).1, Action::LoadImage),
        count(run(events).1, Action::LoadImage) <= 1,
{
    lemma_run_consistent(events);
}

/// How deep the startup render goes.
pub const SCENE_DEPTH: u8 = 6;

/// The startup render's root: apex (300, 0), base corners (0, 600) and
/// (600, 600), in canvas pixels.
pub open spec fn scene_triangle() -> Triangle {
    Triangle {
        top: Point { x: 300, y: 0 },
        left: Point { x: 0, y: 600 },
        right: Point { x: 600, y: 600 },
    }
}

/// The startup render's root triangle.
pub fn scene_root() -> (t: Triangle)
    ensures
        t == scene_triangle(),
{
    Triangle {
        top: Point { x: 300, y: 0 },
        left: Point { x: 0, y: 600 },
        right: Point { x: 600, y: 600 },
    }
}

/// The startup render's first colour: pure green.
pub fn scene_color() -> (c: Color)
    ensures
        c == (Color { red: 0, green: 255, blue: 0 }),
{
    Color { red: 0, green: 255, blue: 0 }
}

/// The draws of the startup render, with fresh colours drawn at random.
pub fn scene_draws() -> (r: Vec<Draw>)
    ensures
        exists|cs: Seq<Color>|
            {
                &&& cs.len() == colors_needed(SCENE_DEPTH as nat)
                &&& forall|i: int| 0 <= i < cs.len() ==> sampled(#[trigger] cs[i])
                &&& r@ == plan(
                    scene_triangle(),
                    Color { red: 0, green: 255, blue: 0 },
                    SCENE_DEPTH as nat,
                    0,
                    cs,
                )
            },
{
    let root = scene_root();
    proof {
        lemma2_to64();
        assert(max_abs(root) == 600);
        assert(pow2(5) == 32);
        assert(fits(root, SCENE_DEPTH as nat));
        reveal_with_fuel(colors_needed, 7);
        assert(colors_needed(SCENE_DEPTH as nat) == 121);
    }
    sierpinski(&root, scene_color(), SCENE_DEPTH)
}

} // verus!

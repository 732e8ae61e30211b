use sierpinski::geometry::{Point, Triangle};
use sierpinski::paint::Color;
use sierpinski::startup::{scene_color, scene_draws, scene_root, step, Action, Event, Stage, SCENE_DEPTH};

#[test]
fn startup_requests_then_renders_once() {
    assert_eq!(step(Stage::Idle, Event::Start), (Stage::AwaitingImage, Action::LoadImage));
    assert_eq!(
        step(Stage::AwaitingImage, Event::ImageLoaded),
        (Stage::Finished, Action::DrawImageAndRender)
    );
    assert_eq!(step(Stage::Finished, Event::ImageLoaded), (Stage::Finished, Action::Ignore));
    assert_eq!(step(Stage::Idle, Event::ImageLoaded), (Stage::Idle, Action::Ignore));
    assert_eq!(step(Stage::AwaitingImage, Event::Start), (Stage::AwaitingImage, Action::Ignore));
}

#[test]
fn scene_is_the_green_triangle_six_deep() {
    let root = Triangle {
        top: Point { x: 300, y: 0 },
        left: Point { x: 0, y: 600 },
        right: Point { x: 600, y: 600 },
    };
    assert_eq!(scene_root(), root);
    assert_eq!(scene_color(), Color { red: 0, green: 255, blue: 0 });
    assert_eq!(SCENE_DEPTH, 6);
    let draws = scene_draws();
    assert_eq!(draws.len(), 364);
    assert_eq!(draws[0].triangle, root);
    assert_eq!(draws[0].color, scene_color());
}

use pixelloop::engine::{
    ConfigurationError, ElementState, Engine, EngineAction, EngineBuilder, Event, Game,
    MouseButton, Phase, RendererConfigure, State,
};
use pixelloop::graphics::Color;
use pixelloop::math::Vec2;

/// An application that records every callback it receives.
struct Recorder {
    calls: Vec<String>,
    presses: Vec<(i32, i32, MouseButton)>,
    releases: Vec<(i32, i32, MouseButton)>,
    keys: Vec<(u32, bool)>,
    closes: u32,
}

impl Recorder {
    fn new() -> Recorder {
        Recorder { calls: Vec::new(), presses: Vec::new(), releases: Vec::new(), keys: Vec::new(), closes: 0 }
    }
}

impl Game for Recorder {
    fn update(&mut self, _state: &mut State) {
        self.calls.push("update".to_string());
    }

    fn draw(&mut self, state: &mut State) {
        self.calls.push("draw".to_string());
        state.render.draw_rect(&Vec2::new(0, 0), &Vec2::new(1, 1), &Color::red());
    }

    fn key_pressed(&mut self, keycode: u32) {
        self.keys.push((keycode, true));
    }

    fn key_released(&mut self, keycode: u32) {
        self.keys.push((keycode, false));
    }

    fn mouse_pressed(&mut self, position: Vec2, button: MouseButton) {
        self.presses.push((position.x, position.y, button));
    }

    fn mouse_released(&mut self, position: Vec2, button: MouseButton) {
        self.releases.push((position.x, position.y, button));
    }

    fn on_close(&mut self) {
        self.closes += 1;
    }
}

fn running_engine() -> Engine<Recorder> {
    let mut engine = EngineBuilder::new("test")
        .size(8, 8)
        .game(Recorder::new())
        .build()
        .unwrap();
    assert_eq!(engine.phase, Phase::Idle);
    engine.start();
    assert_eq!(engine.phase, Phase::Running);
    engine
}

#[test]
fn build_without_game_reports_configuration_error() {
    // No application supplied: a typed error, never a crash.
    let r = EngineBuilder::<Recorder>::new("no game").build();
    match r {
        Err(ConfigurationError::MissingApplication) => {}
        _ => panic!("expected a missing-application configuration error"),
    }
}

#[test]
fn build_with_game_starts_idle_with_defaults() {
    let engine = EngineBuilder::new("t").game(Recorder::new()).build().unwrap();
    assert_eq!(engine.phase, Phase::Idle);
    assert_eq!(engine.state.render.width(), 800);
    assert_eq!(engine.state.render.height(), 600);
    assert_eq!(engine.state.mouse_position, Vec2::new(0, 0));
    assert_eq!(engine.clear_color, Color::white());
}

#[test]
fn builder_setters() {
    let b = EngineBuilder::<Recorder>::new("a")
        .title("b")
        .size(100, 50)
        .renderer_builder(RendererConfigure { vsync: false, ..RendererConfigure::default() });
    assert_eq!(b.title, "b");
    assert_eq!(b.width, 100);
    assert_eq!(b.height, 50);
    assert!(!b.renderer_configure.vsync);
}

#[test]
fn button_events_observe_position_at_dispatch_time() {
    // [cursor-moved(5,5), press(left), cursor-moved(9,9), release(left)]:
    // the press sees (5,5) and the release sees (9,9).
    let mut engine = running_engine();
    assert_eq!(engine.handle_event(Event::CursorMoved(5, 5)), Ok(EngineAction::Continue));
    assert_eq!(
        engine.handle_event(Event::MouseInput(MouseButton::Left, ElementState::Pressed)),
        Ok(EngineAction::Continue)
    );
    assert_eq!(engine.handle_event(Event::CursorMoved(9, 9)), Ok(EngineAction::Continue));
    assert_eq!(
        engine.handle_event(Event::MouseInput(MouseButton::Left, ElementState::Released)),
        Ok(EngineAction::Continue)
    );
    assert_eq!(engine.application.presses, vec![(5, 5, MouseButton::Left)]);
    assert_eq!(engine.application.releases, vec![(9, 9, MouseButton::Left)]);
}

#[test]
fn redraw_runs_update_then_clear_then_draw_and_presents() {
    let mut engine = running_engine();
    let action = engine.handle_event(Event::RedrawRequested).unwrap();
    assert_eq!(action, EngineAction::Present);
    assert_eq!(engine.application.calls, vec!["update".to_string(), "draw".to_string()]);
    // The frame was cleared with the configured color, then drawn on.
    assert_eq!(engine.state.render.pixel_at(0, 0).unwrap(), Color::red());
    assert_eq!(engine.state.render.pixel_at(3, 3).unwrap(), Color::white());
    assert_eq!(engine.phase, Phase::Running);
}

#[test]
fn close_requested_runs_hook_once_and_terminates() {
    let mut engine = running_engine();
    let action = engine.handle_event(Event::CloseRequested).unwrap();
    assert_eq!(action, EngineAction::Exit);
    assert_eq!(engine.phase, Phase::Terminated);
    assert_eq!(engine.application.closes, 1);
}

#[test]
fn resized_reallocates_buffer_and_resizes_surface() {
    let mut engine = running_engine();
    let action = engine.handle_event(Event::Resized(16, 4)).unwrap();
    assert_eq!(action, EngineAction::ResizeSurface(16, 4));
    assert_eq!(engine.state.render.width(), 16);
    assert_eq!(engine.state.render.height(), 4);
    assert_eq!(engine.state.render.buffer_len(), 16 * 4 * 4);
    assert_eq!(engine.phase, Phase::Running);
}

#[test]
fn key_events_reach_the_application() {
    let mut engine = running_engine();
    engine.handle_event(Event::KeyboardInput(17, ElementState::Pressed)).unwrap();
    engine.handle_event(Event::KeyboardInput(17, ElementState::Released)).unwrap();
    assert_eq!(engine.application.keys, vec![(17, true), (17, false)]);
}

#[test]
fn unhandled_events_are_discarded() {
    let mut engine = running_engine();
    for event in [Event::Moved, Event::CursorEntered, Event::CursorLeft, Event::MouseWheel] {
        assert_eq!(engine.handle_event(event), Ok(EngineAction::Continue));
    }
    assert_eq!(engine.phase, Phase::Running);
    assert!(engine.application.calls.is_empty());
}

#[test]
fn main_events_cleared_requests_redraw() {
    let mut engine = running_engine();
    assert_eq!(engine.handle_event(Event::MainEventsCleared), Ok(EngineAction::RequestRedraw));
}

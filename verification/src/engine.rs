use vstd::prelude::*;
use crate::engine::renderer::{RendererSystem, ResizeError};
use crate::graphics::Color;
use crate::math::Vec2;

pub mod renderer;
mod builder;

verus! {

/// A mouse button, as reported by the event source.
#[derive(Clone, Copy, Debug, PartialEq, Eq, Structural)]
pub enum MouseButton {
    Left,
    Right,
    Middle,
    Other(u16),
}

/// Whether a button or key went down or up.
#[derive(Clone, Copy, Debug, PartialEq, Eq, Structural)]
pub enum ElementState {
    Pressed,
    Released,
}

/// One event drawn from the event source's stream. Coordinates arrive as
/// whole window pixels; a fractional source position truncates toward zero.
#[derive(Clone, Copy, Debug, PartialEq, Eq, Structural)]
pub enum Event {
    /// The window asks for a frame: run update, then composite and present.
    RedrawRequested,
    /// The window was resized to the given dimensions.
    Resized(u32, u32),
    /// The window was moved; accepted and discarded.
    Moved,
    /// The user asked to close the window.
    CloseRequested,
    /// The pointer moved to the given window position.
    CursorMoved(i32, i32),
    /// The pointer entered the window; accepted and discarded.
    CursorEntered,
    /// The pointer left the window; accepted and discarded.
    CursorLeft,
    /// The wheel turned; accepted and discarded.
    MouseWheel,
    /// A mouse button went down or up.
    MouseInput(MouseButton, ElementState),
    /// A key went down or up, with its raw platform scancode.
    KeyboardInput(u32, ElementState),
    /// No events are pending; the poll discipline asks for a redraw.
    MainEventsCleared,
}

/// What the shell around the loop must do after an event was dispatched.
#[derive(Clone, Copy, Debug, PartialEq, Eq, Structural)]
pub enum EngineAction {
    /// Nothing; poll the next event.
    Continue,
    /// Ask the window for a redraw.
    RequestRedraw,
    /// Hand the finished frame buffer to the presentation surface.
    Present,
    /// Resize the presentation surface to the new dimensions.
    ResizeSurface(u32, u32),
    /// Leave the event loop; the engine is terminated.
    Exit,
}

/// The frame loop's life cycle: constructed, polling, running the close
/// hook, and exited for good. A terminated engine is not reusable.
#[derive(Clone, Copy, Debug, PartialEq, Eq, Structural)]
pub enum Phase {
    Idle,
    Running,
    Closing,
    Terminated,
}

/// The per-frame context handed to the application's callbacks: the drawing
/// surface, lent for the duration of one call, and the current input state.
pub struct State {
    pub render: RendererSystem,
    /// The pointer's last known window position, as recorded by the loop.
    pub mouse_position: Vec2,
}

/// The application callbacks the frame loop drives. `update` and `draw` run
/// once per frame; the input hooks default to doing nothing.
pub trait Game {
    /// Called each frame to advance the application's state, before drawing.
    fn update(&mut self, state: &mut State);

    /// Called each frame to draw, after `update` and after the frame buffer
    /// was cleared with the configured color.
    fn draw(&mut self, state: &mut State);

    /// Called when a key has been released.
    fn key_released(&mut self, _keycode: u32) {
    }

    /// Called when a key has been pressed.
    fn key_pressed(&mut self, _keycode: u32) {
    }

    /// Called when a mouse button has been pressed, with the pointer
    /// position current at dispatch time.
    fn mouse_pressed(&mut self, _position: Vec2, _button: MouseButton) {
    }

    /// Called when a mouse button has been released, with the pointer
    /// position current at dispatch time.
    fn mouse_released(&mut self, _position: Vec2, _button: MouseButton) {
    }

    /// Called once when the application is closed.
    fn on_close(&mut self) {
    }
}

/// The frame loop's core: frame buffer and input state, the user
/// application, the life-cycle phase and the configured clear color. The
/// surrounding shell owns the window, the presentation surface and the event
/// source; it feeds each event through [`Engine::handle_event`] and performs
/// the action that comes back.
pub struct Engine<G: Game> {
    pub state: State,
    pub application: G,
    pub phase: Phase,
    pub clear_color: Color,
}

impl<G: Game> Engine<G> {
    /// A fresh engine in the `Idle` phase with a zeroed frame buffer and the
    /// pointer at the origin.
    pub(crate) fn new(width: u32, height: u32, application: G, clear_color: Color) -> (r: Engine<G>)
        requires
            4 * width * height <= usize::MAX,
        ensures
            r.phase == Phase::Idle,
            r.clear_color == clear_color,
            r.application == application,
            r.state.mouse_position == (Vec2 { x: 0, y: 0 }),
            r.state.render@.wf(),
            r.state.render@.width == width,
            r.state.render@.height == height,
            r.state.render@.data == Seq::new((4 * width * height) as nat, |i: int| 0u8),
    {
        Engine {
            state: State { render: RendererSystem::new(width, height), mouse_position: Vec2::new(0, 0) },
            application,
            phase: Phase::Idle,
            clear_color,
        }
    }

    /// Enter the poll loop: the engine moves from `Idle` to `Running` and
    /// from then on consumes the event stream until it terminates.
    pub fn start(&mut self)
        requires
            old(self).phase == Phase::Idle,
        ensures
            final(self).phase == Phase::Running,
            final(self).state == old(self).state,
            final(self).application == old(self).application,
            final(self).clear_color == old(self).clear_color,
    {
        self.phase = Phase::Running;
    }

    /// Composite one frame: clear with the configured color, then let the
    /// application draw.
    fn render(&mut self)
        ensures
            final(self).phase == old(self).phase,
            final(self).clear_color == old(self).clear_color,
    {
        let clear: [u8; 4] = self.clear_color.unpack();
        self.state.render.clear_screen(&clear);
        self.application.draw(&mut self.state);
    }

    /// Dispatch one event of the stream while the loop is `Running`:
    ///
    /// 1. a redraw tick runs `update`, composites the frame and asks the
    ///    shell to present it;
    /// 2. a resize reallocates the frame buffer and asks the shell to resize
    ///    the surface, failing fatally when the new size cannot be allocated;
    /// 3. a close request runs the `on_close` hook once and terminates;
    /// 4. a pointer move records the new position, and nothing else;
    /// 5. a button event calls the press or release hook with the pointer
    ///    position current now, not when the pointer last moved;
    /// 6. a key event calls the press or release hook with the raw code;
    /// 7. everything else is accepted and discarded.
    pub fn handle_event(&mut self, event: Event) -> (r: Result<EngineAction, ResizeError>)
        requires
            old(self).phase == Phase::Running,
        ensures
            final(self).clear_color == old(self).clear_color,
            match event {
                Event::RedrawRequested => r == Ok::<EngineAction, ResizeError>(EngineAction::Present)
                    && final(self).phase == Phase::Running,
                Event::Resized(w, h) => final(self).phase == Phase::Running
                    && final(self).state.mouse_position == old(self).state.mouse_position
                    && final(self).application == old(self).application
                    && match r {
                        Ok(a) => a == EngineAction::ResizeSurface(w, h)
                            && 4 * w * h <= usize::MAX
                            && final(self).state.render@.wf()
                            && final(self).state.render@.width == w
                            && final(self).state.render@.height == h
                            && final(self).state.render@.data == Seq::new((4 * w * h) as nat, |i: int| 0u8),
                        Err(_) => 4 * w * h > usize::MAX
                            && final(self).state.render == old(self).state.render,
                    },
                Event::CloseRequested => r == Ok::<EngineAction, ResizeError>(EngineAction::Exit)
                    && final(self).phase == Phase::Terminated
                    && final(self).state == old(self).state,
                Event::CursorMoved(x, y) => r == Ok::<EngineAction, ResizeError>(EngineAction::Continue)
                    && final(self).phase == Phase::Running
                    && final(self).state.mouse_position == (Vec2 { x, y })
                    && final(self).state.render == old(self).state.render
                    && final(self).application == old(self).application,
                Event::MouseInput(_, _) => r == Ok::<EngineAction, ResizeError>(EngineAction::Continue)
                    && final(self).phase == Phase::Running
                    && final(self).state == old(self).state,
                Event::KeyboardInput(_, _) => r == Ok::<EngineAction, ResizeError>(EngineAction::Continue)
                    && final(self).phase == Phase::Running
                    && final(self).state == old(self).state,
                Event::MainEventsCleared => r == Ok::<EngineAction, ResizeError>(EngineAction::RequestRedraw)
                    && *final(self) == *old(self),
                Event::Moved | Event::CursorEntered | Event::CursorLeft | Event::MouseWheel =>
                    r == Ok::<EngineAction, ResizeError>(EngineAction::Continue)
                    && *final(self) == *old(self),
            },
    {
        match event {
            Event::RedrawRequested => {
                self.application.update(&mut self.state);
                self.render();
                Ok(EngineAction::Present)
            }
            Event::Resized(width, height) => {
                match self.state.render.resize(width, height) {
                    Ok(()) => Ok(EngineAction::ResizeSurface(width, height)),
                    Err(e) => Err(e),
                }
            }
            Event::CloseRequested => {
                self.phase = Phase::Closing;
                self.application.on_close();
                self.phase = Phase::Terminated;
                Ok(EngineAction::Exit)
            }
            Event::CursorMoved(x, y) => {
                self.state.mouse_position.x = x;
                self.state.mouse_position.y = y;
                Ok(EngineAction::Continue)
            }
            Event::MouseInput(button, element_state) => {
                match element_state {
                    ElementState::Pressed => self.application.mouse_pressed(self.state.mouse_position, button),
                    ElementState::Released => self.application.mouse_released(self.state.mouse_position, button),
                }
                Ok(EngineAction::Continue)
            }
            Event::KeyboardInput(code, element_state) => {
                match element_state {
                    ElementState::Pressed => self.application.key_pressed(code),
                    ElementState::Released => self.application.key_released(code),
                }
                Ok(EngineAction::Continue)
            }
            Event::MainEventsCleared => Ok(EngineAction::RequestRedraw),
            Event::Moved | Event::CursorEntered | Event::CursorLeft | Event::MouseWheel => Ok(
                EngineAction::Continue,
            ),
        }
    }
}

/// Why `build` refused to construct an engine.
#[derive(Clone, Copy, Debug, PartialEq, Eq, Structural)]
pub enum ConfigurationError {
    /// No application was supplied to the builder.
    MissingApplication,
    /// The requested surface's byte count does not fit in memory.
    OversizedSurface,
}

/// Collects construction-time options and builds the engine once.
pub struct EngineBuilder<G: Game> {
    pub application: Option<G>,
    pub title: String,
    pub width: u32,
    pub height: u32,
    pub renderer_configure: RendererConfigure,
}

/// Construction-time renderer options, consumed once at engine construction:
/// vsync, the color each frame is cleared with, which graphics backend the
/// presentation surface should use, and how it blends the finished frame.
#[derive(Clone, Copy, Debug, PartialEq, Eq, Structural)]
pub struct RendererConfigure {
    pub vsync: bool,
    pub clear_color: Color,
    pub wgpu_backend: BackendChoice,
    pub blend_state: BlendMode,
}

/// The graphics backend the presentation surface should use.
#[derive(Clone, Copy, Debug, PartialEq, Eq, Structural)]
pub enum BackendChoice {
    Vulkan,
    Dx12,
    Metal,
    Gl,
    All,
}

/// How the presentation surface blends the finished frame when compositing.
#[derive(Clone, Copy, Debug, PartialEq, Eq, Structural)]
pub enum BlendMode {
    AlphaBlending,
    Replace,
}

} // verus!

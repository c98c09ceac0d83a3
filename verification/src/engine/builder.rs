use vstd::prelude::*;
use crate::engine::{BackendChoice, BlendMode, ConfigurationError, Engine, EngineBuilder, Game, Phase, RendererConfigure};
use crate::graphics::Color;
use crate::math::Vec2;

verus! {

impl RendererConfigure {
    /// The default configuration: vsync on, white clear color, Vulkan
    /// backend, alpha blending.
    pub open spec fn default_spec() -> RendererConfigure {
        RendererConfigure {
            vsync: true,
            clear_color: Color { r: 255, g: 255, b: 255, a: 255 },
            wgpu_backend: BackendChoice::Vulkan,
            blend_state: BlendMode::AlphaBlending,
        }
    }
}

impl Default for RendererConfigure {
    fn default() -> (c: Self)
        ensures
            c == RendererConfigure::default_spec(),
    {
        RendererConfigure {
            vsync: true,
            clear_color: Color::white(),
            wgpu_backend: BackendChoice::Vulkan,
            blend_state: BlendMode::AlphaBlending,
        }
    }
}

impl<G: Game> EngineBuilder<G> {
    /// A builder with the given window title and the defaults: an 800 x 600
    /// surface, no application yet, the default renderer configuration.
    pub fn new(title: &str) -> (r: EngineBuilder<G>)
        ensures
            r.title@ == title@,
            r.application is None,
            r.width == 800,
            r.height == 600,
            r.renderer_configure == RendererConfigure::default_spec(),
    {
        EngineBuilder {
            title: title.to_owned(),
            application: None,
            width: 800,
            height: 600,
            renderer_configure: RendererConfigure::default(),
        }
    }

    pub fn title(self, title: &str) -> (r: EngineBuilder<G>)
        ensures
            r.title@ == title@,
            r.application == self.application,
            r.width == self.width,
            r.height == self.height,
            r.renderer_configure == self.renderer_configure,
    {
        EngineBuilder { title: title.to_owned(), ..self }
    }

    pub fn size(self, width: u32, height: u32) -> (r: EngineBuilder<G>)
        ensures
            r.width == width,
            r.height == height,
            r.title == self.title,
            r.application == self.application,
            r.renderer_configure == self.renderer_configure,
    {
        EngineBuilder { width, height, ..self }
    }

    /// Supply the application whose callbacks the loop will drive.
    pub fn game(self, game: G) -> (r: EngineBuilder<G>)
        ensures
            r.application == Some(game),
            r.title == self.title,
            r.width == self.width,
            r.height == self.height,
            r.renderer_configure == self.renderer_configure,
    {
        EngineBuilder { application: Some(game), ..self }
    }

    pub fn renderer_builder(self, renderer_configure: RendererConfigure) -> (r: EngineBuilder<G>)
        ensures
            r.renderer_configure == renderer_configure,
            r.title == self.title,
            r.application == self.application,
            r.width == self.width,
            r.height == self.height,
    {
        EngineBuilder { renderer_configure, ..self }
    }

    /// Consume the builder and construct the engine. Fails with
    /// [`ConfigurationError::MissingApplication`] exactly when no application
    /// was supplied, and with [`ConfigurationError::OversizedSurface`]
    /// exactly when the surface's byte count does not fit in memory; it
    /// never aborts the process.
    pub fn build(self) -> (r: Result<Engine<G>, ConfigurationError>)
        ensures
            match r {
                Ok(e) => {
                    &&& self.application matches Some(g) && e.application == g
                    &&& 4 * self.width * self.height <= usize::MAX
                    &&& e.phase == Phase::Idle
                    &&& e.clear_color == self.renderer_configure.clear_color
                    &&& e.state.mouse_position == (Vec2 { x: 0, y: 0 })
                    &&& e.state.render@.wf()
                    &&& e.state.render@.width == self.width
                    &&& e.state.render@.height == self.height
                    &&& e.state.render@.data == Seq::new((4 * self.width * self.height) as nat, |i: int| 0u8)
                },
                Err(ConfigurationError::MissingApplication) => self.application is None,
                Err(ConfigurationError::OversizedSurface) => self.application is Some
                    && 4 * self.width * self.height > usize::MAX,
            },
    {
        let width = self.width;
        let height = self.height;
        let clear_color = self.renderer_configure.clear_color;
        match self.application {
            None => Err(ConfigurationError::MissingApplication),
            Some(game) => {
                let w128: u128 = width as u128;
                let h128: u128 = height as u128;
                proof {
                    crate::engine::renderer::lemma_byte_count_small(w128 as int, h128 as int);
                }
                let total: u128 = 4u128 * w128 * h128;
                if total > usize::MAX as u128 {
                    Err(ConfigurationError::OversizedSurface)
                } else {
                    Ok(Engine::new(width, height, game, clear_color))
                }
            }
        }
    }
}

} // verus!

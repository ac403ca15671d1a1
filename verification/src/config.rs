//! Settings the engine starts with, and the name tag given to entities.

use vstd::prelude::*;

verus! {

/// What the engine is started with.
#[derive(Debug, Clone)]
pub struct EngineConfig {
    /// Window title.
    pub title: String,
    /// Initial window width.
    pub width: u32,
    /// Initial window height.
    pub height: u32,
    /// Frames per second to aim for; zero for no limit.
    pub target_fps: u32,
    /// Whether to wait for the vertical blank.
    pub vsync: bool,
}

impl Default for EngineConfig {
    /// A window of 1280 by 720 called "Engine", at sixty frames per second
    /// with vertical sync.
    fn default() -> (config: EngineConfig)
        ensures
            config.title@ == "Engine"@,
            config.width == 1280,
            config.height == 720,
            config.target_fps == 60,
            config.vsync,
    {
        EngineConfig { title: "Engine".to_owned(), width: 1280, height: 720, target_fps: 60, vsync: true }
    }
}

impl EngineConfig {
    /// The same settings with another window title.
    pub fn with_title(self, title: &str) -> (config: EngineConfig)
        ensures
            config.title@ == title@,
            config.width == self.width,
            config.height == self.height,
            config.target_fps == self.target_fps,
            config.vsync == self.vsync,
    {
        let mut config = self;
        config.title = title.to_owned();
        config
    }

    /// The same settings with another window size.
    pub fn with_size(self, width: u32, height: u32) -> (config: EngineConfig)
        ensures
            config.title == self.title,
            config.width == width,
            config.height == height,
            config.target_fps == self.target_fps,
            config.vsync == self.vsync,
    {
        let mut config = self;
        config.width = width;
        config.height = height;
        config
    }

    /// The same settings with another frame rate to aim for.
    pub fn with_target_fps(self, fps: u32) -> (config: EngineConfig)
        ensures
            config.title == self.title,
            config.width == self.width,
            config.height == self.height,
            config.target_fps == fps,
            config.vsync == self.vsync,
    {
        let mut config = self;
        config.target_fps = fps;
        config
    }

    /// The same settings with vertical sync switched on or off.
    pub fn with_vsync(self, vsync: bool) -> (config: EngineConfig)
        ensures
            config.title == self.title,
            config.width == self.width,
            config.height == self.height,
            config.target_fps == self.target_fps,
            config.vsync == vsync,
    {
        let mut config = self;
        config.vsync = vsync;
        config
    }
}

/// A name attached to an entity, for debugging.
#[derive(Debug, Clone)]
pub struct Name(pub String);

impl Name {
    /// The name tag that reads `name`.
    pub fn new(name: &str) -> (tag: Name)
        ensures
            tag.0@ == name@,
    {
        Name(name.to_owned())
    }
}

} // verus!

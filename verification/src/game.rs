use vstd::prelude::*;

verus! {

/// Number of nanoseconds in a millisecond.
pub const NANOS_PER_MILLI: u64 = 1_000_000;

/// What the frame loop is set to: the frame rate aimed at, the length of a
/// frame that follows from it, and the size of the game area.
pub struct GameConfig {
    target_fps: u32,
    target_frame_millis: u64,
    game_size: (u32, u32),
}

/// What the input source reported, as far as the loop cares.
#[derive(Debug, PartialEq, Eq, Clone, Copy, Structural)]
pub enum GameEvent {
    /// The window was asked to close.
    Quit,
    /// The escape key went down.
    EscapeKeyDown,
    /// Anything else.
    Other,
}

impl GameEvent {
    /// Whether the event ends the game.
    pub fn stops_game(&self) -> (b: bool)
        ensures
            b == (*self == GameEvent::Quit || *self == GameEvent::EscapeKeyDown),
    {
        match self {
            GameEvent::Quit => true,
            GameEvent::EscapeKeyDown => true,
            GameEvent::Other => false,
        }
    }
}

impl GameConfig {
    pub closed spec fn fps(&self) -> u32 {
        self.target_fps
    }

    /// Length of a frame in whole milliseconds.
    pub closed spec fn frame_millis(&self) -> u64 {
        self.target_frame_millis
    }

    pub closed spec fn size(&self) -> (u32, u32) {
        self.game_size
    }

    /// Length of a frame in nanoseconds.
    pub open spec fn frame_nanos(&self) -> int {
        self.frame_millis() * NANOS_PER_MILLI
    }

    /// The frame is as long as the frame rate says, in whole milliseconds.
    pub open spec fn wf(&self) -> bool {
        self.fps() > 0 && self.frame_millis() == 1000int / (self.fps() as int)
    }

    /// A configuration for `target_fps` frames per second.
    pub fn new(target_fps: u32, game_size: (u32, u32)) -> (config: Self)
        requires
            target_fps > 0,
        ensures
            config.wf(),
            config.fps() == target_fps,
            config.size() == game_size,
    {
        GameConfig { target_fps, target_frame_millis: 1000 / (target_fps as u64), game_size }
    }

    pub fn target_fps(&self) -> (fps: u32)
        ensures
            fps == self.fps(),
    {
        self.target_fps
    }

    pub fn target_frame_millis(&self) -> (millis: u64)
        ensures
            millis == self.frame_millis(),
    {
        self.target_frame_millis
    }

    pub fn game_size(&self) -> (size: (u32, u32))
        ensures
            size == self.size(),
    {
        self.game_size
    }

    /// How long the loop has to wait, in nanoseconds, before the frame that
    /// began `elapsed_nanos` ago is over. Nothing, once it is over.
    pub fn remaining_frame_nanos(&self, elapsed_nanos: u128) -> (rest: u64)
        requires
            self.wf(),
        ensures
            rest == (if elapsed_nanos < self.frame_nanos() {
                self.frame_nanos() - elapsed_nanos
            } else {
                0
            }),
    {
        let target: u64 = self.target_frame_millis * NANOS_PER_MILLI;
        if elapsed_nanos < target as u128 {
            target - (elapsed_nanos as u64)
        } else {
            0
        }
    }
}

} // verus!

//! Which page is shown, and in which part the player takes the game.
use vstd::prelude::*;

verus! {

/// The page that is shown.
#[derive(Copy, Clone, Debug, PartialEq, Eq, Structural)]
pub enum AppState {
    Lobby,
    Connecting,
    /// The game, with the pause menu or the chat line over it.
    InGame { paused: bool, chat_open: bool },
    Disconnected,
}

/// The part in which the player takes the game.
#[derive(Copy, Clone, Debug, PartialEq, Eq, Structural)]
pub enum GameMode {
    /// Alone.
    Local,
    /// Keeping the world for the others.
    Host,
    /// In the world of another player.
    Remote,
}

/// How the player moves.
#[derive(Copy, Clone, Debug, PartialEq, Eq, Structural)]
pub enum CameraMode {
    Fly,
    Walk,
}

impl Default for AppState {
    fn default() -> (r: AppState)
        ensures
            r == AppState::Lobby,
    {
        AppState::Lobby
    }
}

impl AppState {
    /// Whether the game is shown, with or without something over it.
    pub fn is_in_game(&self) -> (r: bool)
        ensures
            r == (*self is InGame),
    {
        match self {
            AppState::InGame { .. } => true,
            _ => false,
        }
    }

    /// The game with nothing over it.
    pub fn ingame_default() -> (r: AppState)
        ensures
            r == (AppState::InGame { paused: false, chat_open: false }),
    {
        AppState::InGame { paused: false, chat_open: false }
    }

    /// Whether the player is playing: the game is shown with nothing over it.
    pub fn is_playing(&self) -> (r: bool)
        ensures
            r == (*self == AppState::InGame { paused: false, chat_open: false }),
    {
        match self {
            AppState::InGame { paused, chat_open } => !*paused && !*chat_open,
            _ => false,
        }
    }
}

/// How far chunks are shown: a guest sees no farther than the host allows, once that is known.
pub open spec fn effective_distance(mode: GameMode, own: u32, host: u32) -> u32 {
    if mode == GameMode::Remote && host > 0 && host < own {
        host
    } else {
        own
    }
}

/// How far chunks are shown.
pub fn effective_render_distance(mode: GameMode, own: u32, host: u32) -> (r: u32)
    ensures
        r == effective_distance(mode, own, host),
{
    if mode == GameMode::Remote && host > 0 && host < own {
        host
    } else {
        own
    }
}

/// A guest sees no farther than the host as soon as the host has said how far that is. Everyone
/// else sees as far as they wish.
pub proof fn law_a_guest_sees_no_farther_than_the_host(mode: GameMode, own: u32, host: u32)
    ensures
        effective_distance(mode, own, host) <= own,
        mode == GameMode::Remote && host > 0 ==> effective_distance(mode, own, host) <= host,
        mode == GameMode::Remote && host > 0 ==> effective_distance(mode, own, host) == own
            || effective_distance(mode, own, host) == host,
        mode != GameMode::Remote || host == 0 ==> effective_distance(mode, own, host) == own,
{
}

} // verus!

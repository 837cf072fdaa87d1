//! State of a game as the graphical front end plays it.
pub mod game_state;

pub use game_state::{
    AiEvent, AiJob, AiState, AiStats, CaptureAnimation, EnginePoll, GameMode, GameResult,
    GameState, MoveTimer, OpeningRule, WinType,
};

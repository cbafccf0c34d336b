//! The two supported product lines a preset may belong to.
use vstd::prelude::*;

verus! {

/// Which of the two supported games a preset targets; this decides which
/// local launcher manifest is consulted.
#[derive(Debug, Clone, Copy, PartialEq, Eq, Structural)]
pub enum Game {
    Arma,
    DayZ,
}

impl Game {
    /// The human-readable title of the game, used in summary messages.
    pub fn title(&self) -> (r: &'static str)
        ensures
            *self == Game::Arma ==> r@ == "Arma 3"@,
            *self == Game::DayZ ==> r@ == "DayZ"@,
    {
        match self {
            Game::Arma => "Arma 3",
            Game::DayZ => "DayZ",
        }
    }

    /// The path of the launcher manifest for this game, relative to the
    /// platform's local data directory.
    pub fn manifest_rel_path(&self) -> (r: &'static str)
        ensures
            *self == Game::Arma ==> r@ == "Arma 3 Launcher/Steam.json"@,
            *self == Game::DayZ ==> r@ == "DayZ Launcher/Steam.json"@,
    {
        match self {
            Game::Arma => "Arma 3 Launcher/Steam.json",
            Game::DayZ => "DayZ Launcher/Steam.json",
        }
    }
}

} // verus!

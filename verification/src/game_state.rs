//! The phases of a turn.

use vstd::prelude::*;

verus! {

/// The phases through which a turn runs. A game waits for the player in
/// `TileReveal`, `SpecialCardSelection`, `SpecialCardReveal` and
/// `TileSelection`, and it stays in `TurnEnd` once it has ended. The other
/// phases are passed within one action of the player and are never seen from
/// outside.
#[derive(Clone, Copy, Debug, PartialEq, Eq, Structural)]
pub enum GameStates {
    /// A tile lies revealed and waits to be closed.
    TileReveal,
    /// The special cards are open to the player's choice.
    SpecialCardSelection,
    /// The chosen special card lies revealed and waits to be closed.
    SpecialCardReveal,
    /// Movement cards are drawn and the hand is played, while the chosen
    /// special card is closed.
    MovementCardsPlay,
    /// The effect of the tile that was entered is applied, while that tile
    /// is closed.
    Afflictions,
    /// The tiles next to the current one are open to the player's choice.
    TileSelection,
    /// The token moves to the tile that is closed.
    PlayerMovement,
    /// The turn is counted and the game is judged. A game that is won or
    /// lost stays here.
    TurnEnd,
}

/// The phase in which the game stands.
#[derive(Clone, Copy, Debug, PartialEq, Eq, Structural)]
pub struct GameState(pub GameStates);

/// How a game has ended.
#[derive(Clone, Copy, Debug, PartialEq, Eq, Structural)]
pub enum GameOver {
    Win,
    Loss,
}

} // verus!

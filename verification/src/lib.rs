//! The turn-resolution engine of a single-player board game. A token crosses
//! a fixed graph of eleven tiles from the start to the goal. Each tile has a
//! cost, which is paid out of movement points; the points are earned from
//! movement cards, and special cards change the counters, the hand or the
//! current tile. A countdown of turns runs against the player.
//!
//! `tiles` holds the board, `movement` the movement points and cards,
//! `special_cards` the special cards and what they do, `turns` the
//! countdown, and `ledger` the arithmetic of the two counters. `sampling`
//! lays out boards and cards without replacement. `game` is the turn state
//! machine that moves one game from phase to phase, and `game_state` names
//! the phases.

pub mod game;
pub mod game_state;
pub mod ledger;
pub mod movement;
pub mod sampling;
pub mod special_cards;
pub mod tiles;
pub mod turns;

//! The rules of a turn-based game of territorial conquest for two to six
//! players, verified with Verus.
//!
//! A game has three records: the session (`game`), the territory store
//! (`territory`) and the player roster (`player`). The operations of the engine
//! take the records they work on, the identity of the player who acts and the
//! credential under which the stores are written; they draw no randomness and
//! read no clock of their own. Each operation either applies in full or is
//! refused and changes nothing, and its contract says which, by a function that
//! gives the refusal and functions that give the records afterwards.
//!
//! `setup` creates a game, lets players join and deals the territories;
//! `reinforce`, `trade`, `attack`, `fortify` and `turn` are the phases of a
//! turn; `cards`, `combat` and `connectivity` hold the rules they rest on, and
//! `laws` what holds of the engine as a whole. `classic` is a short game of its
//! own, played on one record without phases, dice or cards.

pub mod attack;
pub mod cards;
pub mod classic;
pub mod combat;
pub mod connectivity;
pub mod fortify;
pub mod game;
pub mod identity;
pub mod laws;
pub mod player;
pub mod reinforce;
pub mod setup;
pub mod territory;
pub mod trade;
pub mod turn;

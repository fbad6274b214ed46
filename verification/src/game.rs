//! The session: whose turn it is, in which phase, and what every operation
//! looks at first.

use vstd::prelude::*;
use crate::combat::{AttackDice, AttackDiceView};
use crate::identity::Identity;
use crate::player::{PlayerColor, PlayerError, PlayerStateView};
use crate::territory::{TerritoryError, TerritoryState, TerritoryStateView};

verus! {

/// The life of a session. It only ever moves forward, and `Completed` is final.
#[derive(Clone, Copy, Debug, PartialEq, Eq, Structural)]
pub enum GameState {
    Setup,
    InProgress,
    Completed,
}

/// The phases of one player's turn, in their order.
#[derive(Clone, Copy, Debug, PartialEq, Eq, Structural)]
pub enum TurnPhase {
    Reinforcement,
    Attack,
    Fortification,
}

/// Why the engine refused an operation. A refused operation changes nothing.
#[derive(Clone, Copy, Debug, PartialEq, Eq, Structural)]
pub enum ErrorCode {
    /// Players join during setup only.
    GameAlreadyStarted,
    /// The session is still in setup, or completed.
    GameNotInProgress,
    /// Another player is to play.
    NotPlayerTurn,
    /// The roster is full.
    MaxPlayersReached,
    /// Another player has the colour.
    ColorAlreadyTaken,
    /// The name is none of the six colours.
    InvalidColor,
    /// The player does not hold the territory.
    NotTerritoryOwner,
    /// A troop must stay behind on the territory.
    InsufficientTroops,
    /// The player holds the territory that is attacked.
    CannotAttackOwnTerritory,
    /// The turn is in another phase, or the phase cannot begin or end yet.
    InvalidPhase,
    /// An attack rolls one, two or three dice.
    InvalidDiceCount,
    /// The troops placed are not the troops that wait to be placed.
    InvalidTroopCount,
    /// No reinforcements wait to be placed.
    NoReinforcements,
    /// The cards are not three different cards that form a set.
    InvalidCardSet,
    /// The hand has no card at the index.
    InvalidCardIndex,
    /// The hand is full.
    CardLimitReached,
    /// No way leads through the player's territories.
    TerritoriesNotConnected,
    /// The credential is not the authority of the store.
    InvalidAuthority,
    /// The player is not on the roster.
    PlayerNotFound,
}

/// The session record. `key` is the session's own identity, by which its two
/// stores name it; `territory_account` and `player_account` name the stores.
/// `pending_reinforcements` are the troops that the current player has yet to
/// place, `cards_sets_turned_in` the sets redeemed in this game so far, and
/// `last_attack_dice` the dice of the latest attack.
#[derive(Clone, Debug, PartialEq, Eq)]
pub struct Game {
    pub key: Identity,
    pub current_player: Identity,
    pub turn: u8,
    pub state: GameState,
    pub current_phase: TurnPhase,
    pub cards_sets_turned_in: u8,
    pub last_attack_dice: Option<AttackDice>,
    pub pending_reinforcements: Option<u8>,
    pub territory_account: Identity,
    pub player_account: Identity,
}

/// The session as a mathematical value.
pub struct GameView {
    pub key: Identity,
    pub current_player: Identity,
    pub turn: u8,
    pub state: GameState,
    pub current_phase: TurnPhase,
    pub cards_sets_turned_in: u8,
    pub last_attack_dice: Option<AttackDiceView>,
    pub pending_reinforcements: Option<u8>,
    pub territory_account: Identity,
    pub player_account: Identity,
}

impl View for Game {
    type V = GameView;

    open spec fn view(&self) -> GameView {
        GameView {
            key: self.key,
            current_player: self.current_player,
            turn: self.turn,
            state: self.state,
            current_phase: self.current_phase,
            cards_sets_turned_in: self.cards_sets_turned_in,
            last_attack_dice: match self.last_attack_dice {
                Some(dice) => Some(dice@),
                None => None,
            },
            pending_reinforcements: self.pending_reinforcements,
            territory_account: self.territory_account,
            player_account: self.player_account,
        }
    }
}

impl GameView {
    /// Whether `territories` is the territory store of this session.
    pub open spec fn holds_map(self, territories: TerritoryStateView) -> bool {
        territories.game == self.key
    }

    /// Whether `players` is the roster of this session.
    pub open spec fn holds_roster(self, players: PlayerStateView) -> bool {
        players.game == self.key
    }

    /// Whether reinforcements are waiting to be placed.
    pub open spec fn reinforcements_outstanding(self) -> bool {
        self.pending_reinforcements matches Some(pending) && pending > 0
    }
}

/// What an action of `player` that belongs to `phase` comes to before anything
/// else is looked at: the session must be in progress, it must be the player's
/// turn, and the turn must be in that phase. The first of these that fails
/// names the refusal.
pub open spec fn turn_refusal(
    game: GameView,
    player: Identity,
    phase: TurnPhase,
) -> Option<ErrorCode> {
    if game.state != GameState::InProgress {
        Some(ErrorCode::GameNotInProgress)
    } else if game.current_player != player {
        Some(ErrorCode::NotPlayerTurn)
    } else if game.current_phase != phase {
        Some(ErrorCode::InvalidPhase)
    } else {
        None
    }
}

/// The refusal that the engine gives for a refusal of the territory store.
pub open spec fn territory_refusal(refusal: TerritoryError) -> ErrorCode {
    match refusal {
        TerritoryError::InvalidAuthority => ErrorCode::InvalidAuthority,
    }
}

/// The refusal that the engine gives for a refusal of the roster.
pub open spec fn roster_refusal(refusal: PlayerError) -> ErrorCode {
    match refusal {
        PlayerError::InvalidAuthority => ErrorCode::InvalidAuthority,
        PlayerError::PlayerNotFound => ErrorCode::PlayerNotFound,
    }
}

/// The colour that a name in lower case stands for, if it is one of the six.
pub open spec fn color_named(name: Seq<char>) -> Option<PlayerColor> {
    if name == "red"@ {
        Some(PlayerColor::Red)
    } else if name == "blue"@ {
        Some(PlayerColor::Blue)
    } else if name == "green"@ {
        Some(PlayerColor::Green)
    } else if name == "yellow"@ {
        Some(PlayerColor::Yellow)
    } else if name == "purple"@ {
        Some(PlayerColor::Purple)
    } else if name == "orange"@ {
        Some(PlayerColor::Orange)
    } else {
        None
    }
}

impl TerritoryStateView {
    /// Whether `who` holds every territory of a map that has any.
    pub open spec fn conquered_by(self, who: Identity) -> bool {
        &&& self.territories.len() > 0
        &&& forall|t: int|
            0 <= t < self.territories.len() ==> (#[trigger] self.territories[t]).owner == Some(who)
    }

    /// Whether one player holds every territory.
    pub open spec fn has_winner(self) -> bool {
        exists|who: Identity| self.conquered_by(who)
    }
}

/// Checks the three things every action depends on: that the session is in
/// progress, that it is `player`'s turn, and that the turn is in `phase`.
pub fn check_turn(
    game: &Game,
    player: &Identity,
    phase: TurnPhase,
) -> (result: Result<(), ErrorCode>)
    ensures
        match turn_refusal(game@, *player, phase) {
            Some(refusal) => result == Err::<(), ErrorCode>(refusal),
            None => result == Ok::<(), ErrorCode>(()),
        },
{
    if game.state != GameState::InProgress {
        return Err(ErrorCode::GameNotInProgress);
    }
    if game.current_player != *player {
        return Err(ErrorCode::NotPlayerTurn);
    }
    if game.current_phase != phase {
        return Err(ErrorCode::InvalidPhase);
    }
    Ok(())
}

/// Turns a refusal of the territory store into the engine's.
pub fn from_territory_error(refusal: TerritoryError) -> (code: ErrorCode)
    ensures
        code == territory_refusal(refusal),
{
    match refusal {
        TerritoryError::InvalidAuthority => ErrorCode::InvalidAuthority,
    }
}

/// Turns a refusal of the roster into the engine's.
pub fn from_player_error(refusal: PlayerError) -> (code: ErrorCode)
    ensures
        code == roster_refusal(refusal),
{
    match refusal {
        PlayerError::InvalidAuthority => ErrorCode::InvalidAuthority,
        PlayerError::PlayerNotFound => ErrorCode::PlayerNotFound,
    }
}

/// The colour that `name` stands for: one of "red", "blue", "green",
/// "yellow", "purple" and "orange", written in lower case.
pub fn color_from_lowercase(name: &String) -> (result: Result<PlayerColor, ErrorCode>)
    ensures
        match color_named(name@) {
            Some(color) => result == Ok::<PlayerColor, ErrorCode>(color),
            None => result == Err::<PlayerColor, ErrorCode>(ErrorCode::InvalidColor),
        },
{
    if *name == "red".to_owned() {
        Ok(PlayerColor::Red)
    } else if *name == "blue".to_owned() {
        Ok(PlayerColor::Blue)
    } else if *name == "green".to_owned() {
        Ok(PlayerColor::Green)
    } else if *name == "yellow".to_owned() {
        Ok(PlayerColor::Yellow)
    } else if *name == "purple".to_owned() {
        Ok(PlayerColor::Purple)
    } else if *name == "orange".to_owned() {
        Ok(PlayerColor::Orange)
    } else {
        Err(ErrorCode::InvalidColor)
    }
}

/// Ends the session if one player holds every territory; otherwise leaves it as
/// it is.
pub fn check_victory_condition(game: &mut Game, territory_state: &TerritoryState)
    ensures
        final(game)@ == (GameView {
            state: if territory_state@.has_winner() {
                GameState::Completed
            } else {
                old(game)@.state
            },
            ..old(game)@
        }),
{
    let count = territory_state.territories.len();
    if count == 0 {
        proof {
            assert(!territory_state@.has_winner());
        }
        return ;
    }
    let first_owner = territory_state.territories[0].owner;
    match first_owner {
        None => {
            proof {
                assert forall|who: Identity| !territory_state@.conquered_by(who) by {
                    assert(territory_state@.territories[0].owner is None);
                }
            }
        },
        Some(holder) => {
            let mut t: usize = 1;
            while t < count
                invariant
                    1 <= t <= count,
                    count == territory_state@.territories.len(),
                    forall|a: int|
                        0 <= a < t ==> (#[trigger] territory_state@.territories[a]).owner == Some(
                            holder,
                        ),
                decreases count - t,
            {
                if territory_state.territories[t].owner != Some(holder) {
                    proof {
                        assert forall|who: Identity| !territory_state@.conquered_by(who) by {
                            assert(territory_state@.territories[0].owner == Some(holder));
                            assert(territory_state@.territories[t as int].owner != Some(holder));
                        }
                    }
                    return ;
                }
                t += 1;
            }
            proof {
                assert(territory_state@.conquered_by(holder));
            }
            game.state = GameState::Completed;
        },
    }
}

} // verus!

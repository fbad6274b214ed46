//! The player roster: who plays, in which colour, with which cards in hand,
//! and the one gated way of writing to it.

use vstd::prelude::*;
use crate::cards::RiskCard;
use crate::identity::Identity;

verus! {

/// The colours a player can choose from. No two players of a game share one.
#[derive(Clone, Copy, Debug, PartialEq, Eq, Structural)]
pub enum PlayerColor {
    Red,
    Blue,
    Green,
    Yellow,
    Purple,
    Orange,
}

/// One player's record.
#[derive(Clone, Debug, PartialEq, Eq)]
pub struct Player {
    pub pubkey: Identity,
    pub color: PlayerColor,
    pub cards: Vec<RiskCard>,
    pub conquered_territory_this_turn: bool,
}

/// What a `Player` holds, with the hand as a sequence.
pub struct PlayerView {
    pub pubkey: Identity,
    pub color: PlayerColor,
    pub cards: Seq<RiskCard>,
    pub conquered_territory_this_turn: bool,
}

impl View for Player {
    type V = PlayerView;

    open spec fn view(&self) -> PlayerView {
        PlayerView {
            pubkey: self.pubkey,
            color: self.color,
            cards: self.cards@,
            conquered_territory_this_turn: self.conquered_territory_this_turn,
        }
    }
}

/// The player roster, in the order in which the players joined. `game` is the
/// session that the roster belongs to, `authority` the credential that may
/// write to it.
#[derive(Clone, Debug, PartialEq, Eq)]
pub struct PlayerState {
    pub players: Vec<Player>,
    pub game: Identity,
    pub authority: Identity,
}

/// The roster as a mathematical value.
pub struct PlayerStateView {
    pub players: Seq<PlayerView>,
    pub game: Identity,
    pub authority: Identity,
}

impl View for PlayerState {
    type V = PlayerStateView;

    open spec fn view(&self) -> PlayerStateView {
        PlayerStateView {
            players: self.players@.map_values(|p: Player| p@),
            game: self.game,
            authority: self.authority,
        }
    }
}

/// Why the roster refused a write.
#[derive(Clone, Copy, Debug, PartialEq, Eq, Structural)]
pub enum PlayerError {
    /// The credential shown is not the roster's authority.
    InvalidAuthority,
    /// The roster has no player of that identity.
    PlayerNotFound,
}

/// The position of the first record at or after `from` that belongs to `who`,
/// or the number of records if there is none.
pub open spec fn seat_from(players: Seq<PlayerView>, who: Identity, from: int) -> int
    decreases players.len() - from,
{
    if from < 0 || from >= players.len() {
        players.len() as int
    } else if players[from].pubkey == who {
        from
    } else {
        seat_from(players, who, from + 1)
    }
}

impl PlayerStateView {
    /// The position of the first record that belongs to `who`, or the number of
    /// records if `who` is not on the roster.
    pub open spec fn seat(self, who: Identity) -> int {
        seat_from(self.players, who, 0)
    }

    /// Whether `who` is on the roster.
    pub open spec fn has(self, who: Identity) -> bool {
        self.seat(who) < self.players.len()
    }

    /// Whether some player has chosen `color`.
    pub open spec fn color_taken(self, color: PlayerColor) -> bool {
        exists|i: int| 0 <= i < self.players.len() && (#[trigger] self.players[i]).color == color
    }

    /// The roster after `player` joined it.
    pub open spec fn with_player(self, player: PlayerView) -> Self {
        PlayerStateView { players: self.players.push(player), ..self }
    }

    /// The roster after the hand of `who` became `cards`.
    pub open spec fn with_cards(self, who: Identity, cards: Seq<RiskCard>) -> Self {
        PlayerStateView {
            players: self.players.update(
                self.seat(who),
                PlayerView { cards, ..self.players[self.seat(who)] },
            ),
            ..self
        }
    }

    /// The roster after the conquest mark of `who` became `conquered`.
    pub open spec fn with_conquered(self, who: Identity, conquered: bool) -> Self {
        PlayerStateView {
            players: self.players.update(
                self.seat(who),
                PlayerView {
                    conquered_territory_this_turn: conquered,
                    ..self.players[self.seat(who)]
                },
            ),
            ..self
        }
    }

    /// Whether no hand holds more than five cards.
    pub open spec fn hands_within_limit(self) -> bool {
        forall|i: int|
            0 <= i < self.players.len() ==> (#[trigger] self.players[i]).cards.len()
                <= crate::cards::HAND_LIMIT
    }
}

/// Where the search for `who` ends: on a record of `who` with none before it,
/// or past the last record when there is none at all.
pub proof fn lemma_seat_from(players: Seq<PlayerView>, who: Identity, from: int)
    requires
        0 <= from <= players.len(),
    ensures
        from <= seat_from(players, who, from) <= players.len(),
        seat_from(players, who, from) < players.len() ==> players[seat_from(
            players,
            who,
            from,
        )].pubkey == who,
        forall|j: int| from <= j < seat_from(players, who, from) ==> players[j].pubkey != who,
    decreases players.len() - from,
{
    if from < players.len() && players[from].pubkey != who {
        lemma_seat_from(players, who, from + 1);
    }
}

/// Makes the roster of the session `game_pubkey` with `initial_player` as its
/// only member, and `authority` as the credential that may write to it.
pub fn initialize(
    game_pubkey: Identity,
    initial_player: Player,
    authority: Identity,
) -> (player_state: PlayerState)
    ensures
        player_state@.players == seq![initial_player@],
        player_state.game == game_pubkey,
        player_state.authority == authority,
{
    let mut players: Vec<Player> = Vec::new();
    players.push(initial_player);
    let player_state = PlayerState { players, game: game_pubkey, authority };
    proof {
        assert(player_state@.players =~= seq![initial_player@]);
    }
    player_state
}

/// The position of `who` on the roster, if `who` is on it.
pub fn find_player(player_state: &PlayerState, who: &Identity) -> (seat: Option<usize>)
    ensures
        match seat {
            Some(at) => player_state@.has(*who) && at == player_state@.seat(*who),
            None => !player_state@.has(*who),
        },
{
    let mut i: usize = 0;
    while i < player_state.players.len()
        invariant
            i <= player_state.players@.len(),
            player_state@.seat(*who) == seat_from(player_state@.players, *who, i as int),
        decreases player_state.players@.len() - i,
    {
        if player_state.players[i].pubkey == *who {
            return Some(i);
        }
        i += 1;
    }
    None
}

/// Adds a player at the end of the roster. The write is refused, and the roster
/// left as it was, unless `authority` is the roster's authority.
pub fn add_player(
    player_state: &mut PlayerState,
    authority: &Identity,
    new_player: Player,
) -> (result: Result<(), PlayerError>)
    ensures
        old(player_state).authority != *authority ==> result == Err::<(), PlayerError>(
            PlayerError::InvalidAuthority,
        ) && final(player_state)@ == old(player_state)@,
        old(player_state).authority == *authority ==> result == Ok::<(), PlayerError>(())
            && final(player_state)@ == old(player_state)@.with_player(new_player@),
{
    if player_state.authority != *authority {
        return Err(PlayerError::InvalidAuthority);
    }
    player_state.players.push(new_player);
    proof {
        assert(player_state@.players =~= old(player_state)@.with_player(new_player@).players);
    }
    Ok(())
}

/// What a write to the record of `who` under the credential `authority` comes
/// to, before anything is written: the credential is looked at first, then the
/// roster is searched.
pub open spec fn write_refusal(
    roster: PlayerStateView,
    authority: Identity,
    who: Identity,
) -> Option<PlayerError> {
    if roster.authority != authority {
        Some(PlayerError::InvalidAuthority)
    } else if !roster.has(who) {
        Some(PlayerError::PlayerNotFound)
    } else {
        None
    }
}

/// Replaces the hand of the player `player_pubkey`. The write is refused, and
/// the roster left as it was, unless `authority` is the roster's authority and
/// the player is on the roster.
pub fn update_player_cards(
    player_state: &mut PlayerState,
    authority: &Identity,
    player_pubkey: Identity,
    cards: Vec<RiskCard>,
) -> (result: Result<(), PlayerError>)
    ensures
        match write_refusal(old(player_state)@, *authority, player_pubkey) {
            Some(refusal) => result == Err::<(), PlayerError>(refusal) && final(player_state)@
                == old(player_state)@,
            None => result == Ok::<(), PlayerError>(()) && final(player_state)@ == old(
                player_state,
            )@.with_cards(player_pubkey, cards@),
        },
{
    if player_state.authority != *authority {
        return Err(PlayerError::InvalidAuthority);
    }
    match find_player(player_state, &player_pubkey) {
        Some(seat) => {
            player_state.players[seat].cards = cards;
            proof {
                assert(player_state@.players =~= old(player_state)@.with_cards(
                    player_pubkey,
                    cards@,
                ).players);
            }
            Ok(())
        },
        None => Err(PlayerError::PlayerNotFound),
    }
}

/// Sets or clears the mark that the player `player_pubkey` conquered a
/// territory this turn. The write is refused, and the roster left as it was,
/// unless `authority` is the roster's authority and the player is on the roster.
pub fn set_conquered_territory(
    player_state: &mut PlayerState,
    authority: &Identity,
    player_pubkey: Identity,
    conquered_this_turn: bool,
) -> (result: Result<(), PlayerError>)
    ensures
        match write_refusal(old(player_state)@, *authority, player_pubkey) {
            Some(refusal) => result == Err::<(), PlayerError>(refusal) && final(player_state)@
                == old(player_state)@,
            None => result == Ok::<(), PlayerError>(()) && final(player_state)@ == old(
                player_state,
            )@.with_conquered(player_pubkey, conquered_this_turn),
        },
{
    if player_state.authority != *authority {
        return Err(PlayerError::InvalidAuthority);
    }
    match find_player(player_state, &player_pubkey) {
        Some(seat) => {
            player_state.players[seat].conquered_territory_this_turn = conquered_this_turn;
            proof {
                assert(player_state@.players =~= old(player_state)@.with_conquered(
                    player_pubkey,
                    conquered_this_turn,
                ).players);
            }
            Ok(())
        },
        None => Err(PlayerError::PlayerNotFound),
    }
}

} // verus!

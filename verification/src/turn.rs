//! Ending a phase, and passing the turn to the next player.

use vstd::prelude::*;
use crate::cards::{drawn_card, generate_risk_card, RiskCard, HAND_LIMIT};
use crate::game::{from_player_error, ErrorCode, Game, GameState, GameView, TurnPhase};
use crate::identity::Identity;
use crate::player::{
    find_player,
    lemma_seat_from,
    seat_from,
    set_conquered_territory,
    PlayerState,
    PlayerStateView,
    PlayerView,
};
use crate::trade::award_card;

verus! {

impl PlayerStateView {
    /// Who plays after `current`: the player who joined next, and after the last
    /// to join, the first.
    pub open spec fn next_player(self, current: Identity) -> Identity {
        self.players[(self.seat(current) + 1) % (self.players.len() as int)].pubkey
    }

    /// The roster at the end of the turn of `player`: a player who conquered a
    /// territory this turn is handed `card` if the hand has room for it, and the
    /// mark of the conquest is cleared.
    pub open spec fn after_turn_of(self, player: Identity, card: RiskCard) -> Self {
        let record = self.players[self.seat(player)];
        if record.conquered_territory_this_turn {
            let rewarded = if record.cards.len() < HAND_LIMIT {
                self.with_cards(player, record.cards.push(card))
            } else {
                self
            };
            rewarded.with_conquered(player, false)
        } else {
            self
        }
    }
}

/// Why ending the phase is refused, if it is. The session must be in progress
/// and it must be the player's turn. The reinforcement phase cannot end while
/// reinforcements wait to be placed. To end the fortification phase the player
/// must be on the roster, and the credential for the roster is needed if the
/// player conquered a territory this turn.
pub open spec fn end_phase_refusal(
    game: GameView,
    roster: PlayerStateView,
    player: Identity,
    authority: Identity,
) -> Option<ErrorCode> {
    if game.state != GameState::InProgress {
        Some(ErrorCode::GameNotInProgress)
    } else if game.current_player != player {
        Some(ErrorCode::NotPlayerTurn)
    } else {
        match game.current_phase {
            TurnPhase::Reinforcement => if game.reinforcements_outstanding() {
                Some(ErrorCode::InvalidPhase)
            } else {
                None
            },
            TurnPhase::Attack => None,
            TurnPhase::Fortification => if !roster.has(player) {
                Some(ErrorCode::PlayerNotFound)
            } else if roster.players[roster.seat(player)].conquered_territory_this_turn
                && roster.authority != authority {
                Some(ErrorCode::InvalidAuthority)
            } else {
                None
            },
        }
    }
}

/// The session after the phase ended. Reinforcement is followed by attack and
/// attack by fortification. After fortification the turn passes on: the next
/// player starts with reinforcement, and the turn counter goes up by one.
pub open spec fn game_after_end_phase(game: GameView, roster: PlayerStateView) -> GameView {
    match game.current_phase {
        TurnPhase::Reinforcement => GameView { current_phase: TurnPhase::Attack, ..game },
        TurnPhase::Attack => GameView { current_phase: TurnPhase::Fortification, ..game },
        TurnPhase::Fortification => GameView {
            current_phase: TurnPhase::Reinforcement,
            current_player: roster.next_player(game.current_player),
            turn: (game.turn + 1) as u8,
            ..game
        },
    }
}

/// The roster after the phase ended: it changes at the end of fortification
/// only.
pub open spec fn roster_after_end_phase(
    game: GameView,
    roster: PlayerStateView,
    player: Identity,
    draw: u8,
) -> PlayerStateView {
    match game.current_phase {
        TurnPhase::Fortification => roster.after_turn_of(player, drawn_card(draw)),
        _ => roster,
    }
}

/// A roster whose records have kept their identities seats everyone where it
/// did before.
pub proof fn lemma_same_identities_same_seats(
    before: Seq<PlayerView>,
    after: Seq<PlayerView>,
    who: Identity,
    from: int,
)
    requires
        before.len() == after.len(),
        forall|i: int| 0 <= i < before.len() ==> before[i].pubkey == after[i].pubkey,
        0 <= from <= before.len(),
    ensures
        seat_from(before, who, from) == seat_from(after, who, from),
    decreases before.len() - from,
{
    if from < before.len() && before[from].pubkey != who {
        lemma_same_identities_same_seats(before, after, who, from + 1);
    }
}

/// Passes the turn to the player after the current one and counts the turn.
pub fn next_turn(game: &mut Game, player_state: &PlayerState)
    requires
        player_state@.has(old(game).current_player),
        old(game).turn < u8::MAX,
    ensures
        final(game)@ == (GameView {
            current_player: player_state@.next_player(old(game).current_player),
            turn: (old(game).turn + 1) as u8,
            ..old(game)@
        }),
{
    let seat = find_player(player_state, &game.current_player).unwrap();
    let count = player_state.players.len();
    let next: usize = if seat + 1 == count {
        0
    } else {
        seat + 1
    };
    proof {
        let len = count as int;
        assert((seat + 1) % len == next) by (nonlinear_arith)
            requires
                0 <= seat < len,
                next == if seat + 1 == len {
                    0
                } else {
                    seat + 1
                },
        ;
    }
    game.current_player = player_state.players[next].pubkey;
    game.turn = game.turn + 1;
}

/// Ends the current phase of the turn of `player`. `draw` is the raw draw for
/// the card that a conqueror is handed at the end of fortification; `authority`
/// is the credential under which the roster is then written.
///
/// A refused call changes nothing. Otherwise reinforcement gives way to attack,
/// attack to fortification, and fortification to the next player's
/// reinforcement, with the turn counter going up by one. At that last step a
/// player who conquered a territory this turn gets the card, unless the hand is
/// full, in which case the turn passes on all the same.
pub fn end_phase(
    game: &mut Game,
    player_state: &mut PlayerState,
    player: &Identity,
    authority: &Identity,
    draw: u8,
) -> (result: Result<(), ErrorCode>)
    requires
        old(game)@.holds_roster(old(player_state)@),
        end_phase_refusal(old(game)@, old(player_state)@, *player, *authority) is None && old(
            game,
        ).current_phase == TurnPhase::Fortification ==> old(game).turn < u8::MAX,
    ensures
        match end_phase_refusal(old(game)@, old(player_state)@, *player, *authority) {
            Some(refusal) => {
                &&& result == Err::<(), ErrorCode>(refusal)
                &&& final(game)@ == old(game)@
                &&& final(player_state)@ == old(player_state)@
            },
            None => {
                &&& result == Ok::<(), ErrorCode>(())
                &&& final(game)@ == game_after_end_phase(old(game)@, old(player_state)@)
                &&& final(player_state)@ == roster_after_end_phase(
                    old(game)@,
                    old(player_state)@,
                    *player,
                    draw,
                )
            },
        },
{
    if game.state != GameState::InProgress {
        return Err(ErrorCode::GameNotInProgress);
    }
    if game.current_player != *player {
        return Err(ErrorCode::NotPlayerTurn);
    }
    match game.current_phase {
        TurnPhase::Reinforcement => {
            match game.pending_reinforcements {
                Some(pending) => {
                    if pending > 0 {
                        return Err(ErrorCode::InvalidPhase);
                    }
                },
                None => {},
            }
            game.current_phase = TurnPhase::Attack;
        },
        TurnPhase::Attack => {
            game.current_phase = TurnPhase::Fortification;
        },
        TurnPhase::Fortification => {
            let seat = match find_player(player_state, player) {
                Some(seat) => seat,
                None => {
                    return Err(ErrorCode::PlayerNotFound);
                },
            };
            let ghost roster = player_state@;
            if player_state.players[seat].conquered_territory_this_turn {
                if player_state.authority != *authority {
                    return Err(ErrorCode::InvalidAuthority);
                }
                let card = generate_risk_card(draw);
                match award_card(player_state, authority, player, card) {
                    Ok(()) => {},
                    Err(_) => {},
                }
                proof {
                    lemma_same_identities_same_seats(
                        roster.players,
                        player_state@.players,
                        *player,
                        0,
                    );
                }
                match set_conquered_territory(player_state, authority, *player, false) {
                    Err(refusal) => {
                        return Err(from_player_error(refusal));
                    },
                    Ok(()) => {},
                }
            }
            proof {
                lemma_same_identities_same_seats(
                    roster.players,
                    player_state@.players,
                    game.current_player,
                    0,
                );
                lemma_seat_from(roster.players, *player, 0);
            }
            game.current_phase = TurnPhase::Reinforcement;
            next_turn(game, player_state);
            proof {
                let count = roster.players.len() as int;
                let next = (roster.seat(*player) + 1) % count;
                assert(player_state@.players[next].pubkey == roster.players[next].pubkey);
            }
        },
    }
    Ok(())
}

} // verus!

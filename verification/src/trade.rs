//! Redeeming a set of cards for armies, and handing out a card.

use vstd::prelude::*;
use crate::cards::{
    bonus_for_set,
    is_valid_card_set,
    set_bonus,
    valid_card_set,
    RiskCard,
    HAND_LIMIT,
};
use crate::game::{
    check_turn,
    from_player_error,
    roster_refusal,
    turn_refusal,
    ErrorCode,
    Game,
    GameView,
    TurnPhase,
};
use crate::identity::Identity;
use crate::player::{
    find_player,
    update_player_cards,
    write_refusal,
    PlayerState,
    PlayerStateView,
};

verus! {

/// Whether one of `indices` is the position `position`.
pub open spec fn names_position(indices: Seq<u8>, position: int) -> bool {
    exists|k: int| 0 <= k < indices.len() && #[trigger] indices[k] == position
}

/// The cards of `hand` at the positions `indices`, in the order of the indices.
pub open spec fn picked(hand: Seq<RiskCard>, indices: Seq<u8>) -> Seq<RiskCard> {
    Seq::new(indices.len(), |k: int| hand[indices[k] as int])
}

/// What is left of `hand` when the cards at the positions `indices` are taken
/// out of it. The cards that stay keep their order.
pub open spec fn hand_without(hand: Seq<RiskCard>, indices: Seq<u8>) -> Seq<RiskCard>
    decreases hand.len(),
{
    if hand.len() == 0 {
        hand
    } else if names_position(indices, hand.len() - 1) {
        hand_without(hand.drop_last(), indices)
    } else {
        hand_without(hand.drop_last(), indices).push(hand.last())
    }
}

/// Whether every index is a position of a hand of `hand_len` cards.
pub open spec fn all_in_hand(indices: Seq<u8>, hand_len: nat) -> bool {
    forall|k: int| 0 <= k < indices.len() ==> #[trigger] indices[k] < hand_len
}

/// Why a trade is refused, if it is. The turn is looked at first, then that the
/// player is on the roster; then that there are three indices, that each is a
/// position of the player's hand, and that they name three different cards which
/// form a set; then the credential for the roster.
pub open spec fn trade_refusal(
    game: GameView,
    roster: PlayerStateView,
    player: Identity,
    authority: Identity,
    indices: Seq<u8>,
) -> Option<ErrorCode> {
    let hand = roster.players[roster.seat(player)].cards;
    if turn_refusal(game, player, TurnPhase::Reinforcement) is Some {
        turn_refusal(game, player, TurnPhase::Reinforcement)
    } else if !roster.has(player) {
        Some(ErrorCode::PlayerNotFound)
    } else if indices.len() != 3 {
        Some(ErrorCode::InvalidCardSet)
    } else if !all_in_hand(indices, hand.len()) {
        Some(ErrorCode::InvalidCardIndex)
    } else if !indices.no_duplicates() || !valid_card_set(picked(hand, indices)) {
        Some(ErrorCode::InvalidCardSet)
    } else if roster.authority != authority {
        Some(ErrorCode::InvalidAuthority)
    } else {
        None
    }
}

/// The reinforcements that wait to be placed, counting none as zero.
pub open spec fn pending_or_zero(game: GameView) -> u8 {
    match game.pending_reinforcements {
        Some(pending) => pending,
        None => 0,
    }
}

/// The session after a set was redeemed: the bonus for the set is added to the
/// reinforcements that wait to be placed, and one more set counts as redeemed.
pub open spec fn game_after_trade(game: GameView) -> GameView {
    GameView {
        pending_reinforcements: Some(
            (pending_or_zero(game) + set_bonus(game.cards_sets_turned_in)) as u8,
        ),
        cards_sets_turned_in: (game.cards_sets_turned_in + 1) as u8,
        ..game
    }
}

/// The roster after the player traded the cards at `indices`.
pub open spec fn roster_after_trade(
    roster: PlayerStateView,
    player: Identity,
    indices: Seq<u8>,
) -> PlayerStateView {
    roster.with_cards(player, hand_without(roster.players[roster.seat(player)].cards, indices))
}

/// Taking out cards at different positions of the hand shortens it by as many
/// cards as there are positions.
pub proof fn lemma_hand_without_len(hand: Seq<RiskCard>, indices: Seq<u8>)
    requires
        indices.no_duplicates(),
        all_in_hand(indices, hand.len()),
    ensures
        hand_without(hand, indices).len() + indices.len() == hand.len(),
    decreases hand.len(),
{
    if hand.len() == 0 {
        if indices.len() > 0 {
            assert(indices[0] < hand.len());
        }
    } else {
        let last = hand.len() - 1;
        if names_position(indices, last) {
            let k = choose|k: int| 0 <= k < indices.len() && #[trigger] indices[k] == last;
            let rest = indices.remove(k);
            assert(rest.no_duplicates()) by {
                assert forall|a: int, b: int| 0 <= a < rest.len() && 0 <= b < rest.len() && a
                    != b implies rest[a] != rest[b] by {
                    let a0 = if a < k {
                        a
                    } else {
                        a + 1
                    };
                    let b0 = if b < k {
                        b
                    } else {
                        b + 1
                    };
                    assert(indices[a0] != indices[b0]);
                }
            }
            assert(all_in_hand(rest, (hand.len() - 1) as nat)) by {
                assert forall|j: int| 0 <= j < rest.len() implies #[trigger] rest[j] < hand.len()
                    - 1 by {
                    let j0 = if j < k {
                        j
                    } else {
                        j + 1
                    };
                    assert(indices[j0] < hand.len());
                    assert(indices[j0] != indices[k]);
                }
            }
            lemma_hand_without_len(hand.drop_last(), rest);
            assert forall|position: int| 0 <= position < hand.len() - 1 implies (names_position(
                indices,
                position,
            ) <==> names_position(rest, position)) by {
                if names_position(indices, position) {
                    let j = choose|j: int|
                        0 <= j < indices.len() && #[trigger] indices[j] == position;
                    let j0 = if j < k {
                        j
                    } else {
                        j - 1
                    };
                    assert(rest[j0] == position);
                }
                if names_position(rest, position) {
                    let j = choose|j: int| 0 <= j < rest.len() && #[trigger] rest[j] == position;
                    let j0 = if j < k {
                        j
                    } else {
                        j + 1
                    };
                    assert(indices[j0] == position);
                }
            }
            lemma_hand_without_same(hand.drop_last(), indices, rest);
        } else {
            assert(all_in_hand(indices, (hand.len() - 1) as nat)) by {
                assert forall|j: int| 0 <= j < indices.len() implies #[trigger] indices[j]
                    < hand.len() - 1 by {
                    assert(indices[j] < hand.len());
                    if indices[j] == last {
                        assert(names_position(indices, last));
                    }
                }
            }
            lemma_hand_without_len(hand.drop_last(), indices);
        }
    }
}

/// Two lists of indices that name the same positions of a hand leave the same
/// cards in it.
pub proof fn lemma_hand_without_same(hand: Seq<RiskCard>, first: Seq<u8>, second: Seq<u8>)
    requires
        forall|position: int|
            0 <= position < hand.len() ==> (names_position(first, position) <==> names_position(
                second,
                position,
            )),
    ensures
        hand_without(hand, first) == hand_without(hand, second),
    decreases hand.len(),
{
    if hand.len() > 0 {
        lemma_hand_without_same(hand.drop_last(), first, second);
    }
}

/// Trades the three cards at the positions `card_indices` of the hand of
/// `player` for armies, writing to the roster under the credential `authority`.
///
/// A refused trade changes nothing. Otherwise the three cards leave the hand,
/// the armies for the set are added to the reinforcements that wait to be
/// placed (4, 6, 8, 10, 12 for the first five sets of a game, 15 for every later
/// one), and the set counts as redeemed.
#[verifier::loop_isolation(false)]
pub fn trade_cards(
    game: &mut Game,
    player_state: &mut PlayerState,
    player: &Identity,
    authority: &Identity,
    card_indices: Vec<u8>,
) -> (result: Result<(), ErrorCode>)
    requires
        old(game)@.holds_roster(old(player_state)@),
        trade_refusal(old(game)@, old(player_state)@, *player, *authority, card_indices@) is None
            ==> {
            &&& pending_or_zero(old(game)@) + set_bonus(old(game).cards_sets_turned_in)
                <= u8::MAX
            &&& old(game).cards_sets_turned_in < u8::MAX
        },
    ensures
        match trade_refusal(old(game)@, old(player_state)@, *player, *authority, card_indices@) {
            Some(refusal) => {
                &&& result == Err::<(), ErrorCode>(refusal)
                &&& final(game)@ == old(game)@
                &&& final(player_state)@ == old(player_state)@
            },
            None => {
                &&& result == Ok::<(), ErrorCode>(())
                &&& final(game)@ == game_after_trade(old(game)@)
                &&& final(player_state)@ == roster_after_trade(
                    old(player_state)@,
                    *player,
                    card_indices@,
                )
            },
        },
{
    match check_turn(game, player, TurnPhase::Reinforcement) {
        Err(refusal) => {
            return Err(refusal);
        },
        Ok(()) => {},
    }
    let seat = match find_player(player_state, player) {
        Some(seat) => seat,
        None => {
            return Err(ErrorCode::PlayerNotFound);
        },
    };
    if card_indices.len() != 3 {
        return Err(ErrorCode::InvalidCardSet);
    }
    let ghost hand = player_state@.players[seat as int].cards;
    let hand_len = player_state.players[seat].cards.len();
    let mut k: usize = 0;
    while k < 3
        invariant
            k <= 3,
            card_indices@.len() == 3,
            seat < player_state.players@.len(),
            hand == player_state@.players[seat as int].cards,
            hand_len == hand.len(),
            forall|j: int| 0 <= j < k ==> #[trigger] card_indices@[j] < hand_len,
        decreases 3 - k,
    {
        if card_indices[k] as usize >= hand_len {
            proof {
                assert(!(card_indices@[k as int] < hand.len()));
            }
            return Err(ErrorCode::InvalidCardIndex);
        }
        k += 1;
    }
    let first = card_indices[0];
    let second = card_indices[1];
    let third = card_indices[2];
    let mut cards: Vec<RiskCard> = Vec::new();
    cards.push(player_state.players[seat].cards[first as usize]);
    cards.push(player_state.players[seat].cards[second as usize]);
    cards.push(player_state.players[seat].cards[third as usize]);
    proof {
        assert(cards@ == picked(hand, card_indices@));
    }
    let different = first != second && first != third && second != third;
    if !different || !is_valid_card_set(cards.as_slice()) {
        return Err(ErrorCode::InvalidCardSet);
    }
    if player_state.authority != *authority {
        return Err(ErrorCode::InvalidAuthority);
    }
    let mut kept: Vec<RiskCard> = Vec::new();
    let mut at: usize = 0;
    while at < hand_len
        invariant
            at <= hand_len,
            card_indices@.len() == 3,
            first == card_indices@[0],
            second == card_indices@[1],
            third == card_indices@[2],
            seat < player_state.players@.len(),
            hand == player_state@.players[seat as int].cards,
            hand_len == hand.len(),
            kept@ == hand_without(hand.take(at as int), card_indices@),
        decreases hand_len - at,
    {
        proof {
            assert(hand.take(at + 1).drop_last() == hand.take(at as int));
            if at == first || at == second || at == third {
                let which = if at == first {
                    0int
                } else if at == second {
                    1int
                } else {
                    2int
                };
                assert(card_indices@[which] == at);
            }
        }
        if at != first as usize && at != second as usize && at != third as usize {
            kept.push(player_state.players[seat].cards[at]);
        }
        at += 1;
    }
    proof {
        assert(hand.take(hand_len as int) == hand);
    }
    match update_player_cards(player_state, authority, *player, kept) {
        Err(refusal) => {
            return Err(from_player_error(refusal));
        },
        Ok(()) => {},
    }
    let bonus = bonus_for_set(game.cards_sets_turned_in);
    let pending: u8 = match game.pending_reinforcements {
        Some(pending) => pending,
        None => 0,
    };
    game.pending_reinforcements = Some(pending + bonus);
    game.cards_sets_turned_in = game.cards_sets_turned_in + 1;
    Ok(())
}

/// Why a card is not handed out, if it is not. The credential is looked at
/// first, then that the player is on the roster, then that the hand has room.
pub open spec fn award_refusal(
    roster: PlayerStateView,
    authority: Identity,
    player: Identity,
) -> Option<ErrorCode> {
    if write_refusal(roster, authority, player) is Some {
        Some(roster_refusal(write_refusal(roster, authority, player)->0))
    } else if roster.players[roster.seat(player)].cards.len() >= HAND_LIMIT {
        Some(ErrorCode::CardLimitReached)
    } else {
        None
    }
}

/// Hands `card` to `player`, writing to the roster under the credential
/// `authority`. A hand of five cards takes no more.
pub fn award_card(
    player_state: &mut PlayerState,
    authority: &Identity,
    player: &Identity,
    card: RiskCard,
) -> (result: Result<(), ErrorCode>)
    ensures
        match award_refusal(old(player_state)@, *authority, *player) {
            Some(refusal) => {
                &&& result == Err::<(), ErrorCode>(refusal)
                &&& final(player_state)@ == old(player_state)@
            },
            None => {
                &&& result == Ok::<(), ErrorCode>(())
                &&& final(player_state)@ == old(player_state)@.with_cards(
                    *player,
                    old(player_state)@.players[old(player_state)@.seat(*player)].cards.push(card),
                )
            },
        },
{
    if player_state.authority != *authority {
        return Err(ErrorCode::InvalidAuthority);
    }
    let seat = match find_player(player_state, player) {
        Some(seat) => seat,
        None => {
            return Err(ErrorCode::PlayerNotFound);
        },
    };
    let hand_len = player_state.players[seat].cards.len();
    if hand_len >= HAND_LIMIT {
        return Err(ErrorCode::CardLimitReached);
    }
    let mut cards: Vec<RiskCard> = Vec::new();
    let mut at: usize = 0;
    while at < hand_len
        invariant
            at <= hand_len,
            seat < player_state.players@.len(),
            hand_len == player_state@.players[seat as int].cards.len(),
            cards@ == player_state@.players[seat as int].cards.take(at as int),
        decreases hand_len - at,
    {
        cards.push(player_state.players[seat].cards[at]);
        at += 1;
    }
    cards.push(card);
    proof {
        let hand = player_state@.players[seat as int].cards;
        assert(hand.take(hand_len as int) == hand);
    }
    match update_player_cards(player_state, authority, *player, cards) {
        Err(refusal) => Err(from_player_error(refusal)),
        Ok(()) => Ok(()),
    }
}

} // verus!

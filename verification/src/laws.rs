//! What holds of the engine as a whole, proved over the contracts of its
//! operations.

use vstd::prelude::*;
use crate::attack::{
    attack_refusal,
    conquers,
    dice_of_attack,
    game_after_attack,
    lemma_dice_of_attack,
    lost_by_attacker,
    map_after_attack,
};
use crate::cards::{RiskCard, HAND_LIMIT};
use crate::connectivity::{neighbours, roads_run_both_ways};
use crate::combat::{attacker_losses, compared_pairs, defender_losses, DiceEntropy};
use crate::fortify::{fortify_refusal, map_after_fortify};
use crate::game::{turn_refusal, ErrorCode, GameState, GameView, TurnPhase};
use crate::identity::Identity;
use crate::player::{lemma_seat_from, PlayerColor, PlayerStateView};
use crate::reinforce::{
    all_held,
    game_after_placing,
    map_after_placing,
    place_refusal,
    placed_on,
    placed_total,
    placements_fit,
    start_turn_refusal,
};
use crate::setup::{
    dealt_seat,
    distribution_refusal,
    join_starts_game,
    map_after_join,
    game_after_join,
    join_by_name_refusal,
    join_refusal,
    map_after_distribution,
    new_player,
};
use crate::territory::{
    bonus_sum,
    lemma_bonus_sum_prefix,
    lemma_same_map_well_formed,
    TerritoryStateView,
    TerritoryView,
};
use crate::trade::{
    award_refusal,
    game_after_trade,
    lemma_hand_without_len,
    roster_after_trade,
    trade_refusal,
};
use crate::turn::{
    end_phase_refusal,
    game_after_end_phase,
    lemma_same_identities_same_seats,
    roster_after_end_phase,
};

verus! {

/// The troops on the first `upto` territories.
pub open spec fn troops_upto(territories: Seq<TerritoryView>, upto: int) -> nat
    decreases upto,
{
    if upto <= 0 {
        0
    } else {
        troops_upto(territories, upto - 1) + territories[upto - 1].troops as nat
    }
}

/// All the troops on the map.
pub open spec fn troops_on_map(map: TerritoryStateView) -> nat {
    troops_upto(map.territories, map.territories.len() as int)
}

/// The troops that `placements` place on the first `upto` territories.
pub open spec fn placed_upto(placements: Seq<(u8, u8)>, upto: int) -> nat
    decreases upto,
{
    if upto <= 0 {
        0
    } else {
        placed_upto(placements, upto - 1) + placed_on(placements, upto - 1)
    }
}

/// One more placement adds its troops to what is placed on the first `upto`
/// territories if it names one of them, and nothing otherwise.
proof fn lemma_placed_upto_step(placements: Seq<(u8, u8)>, upto: int)
    requires
        placements.len() > 0,
        upto >= 0,
    ensures
        placed_upto(placements, upto) == placed_upto(placements.drop_last(), upto)
            + if placements.last().0 < upto {
            placements.last().1 as nat
        } else {
            0nat
        },
    decreases upto,
{
    if upto > 0 {
        lemma_placed_upto_step(placements, upto - 1);
    }
}

/// No placements place no troops.
proof fn lemma_placed_upto_none(placements: Seq<(u8, u8)>, upto: int)
    requires
        placements.len() == 0,
    ensures
        placed_upto(placements, upto) == 0,
    decreases upto,
{
    if upto > 0 {
        lemma_placed_upto_none(placements, upto - 1);
    }
}

/// Placements that name territories of the map only place on the map all the
/// troops that they place.
proof fn lemma_placed_on_map(placements: Seq<(u8, u8)>, territories: int)
    requires
        forall|i: int| 0 <= i < placements.len() ==> (#[trigger] placements[i]).0 < territories,
    ensures
        placed_upto(placements, territories) == placed_total(placements),
    decreases placements.len(),
{
    if placements.len() == 0 {
        lemma_placed_upto_none(placements, territories);
    } else {
        assert(placements.last().0 < territories);
        if territories >= 0 {
            lemma_placed_upto_step(placements, territories);
        }
        assert forall|i: int| 0 <= i < placements.drop_last().len() implies (
        #[trigger] placements.drop_last()[i]).0 < territories by {
            assert(placements[i].0 < territories);
        }
        lemma_placed_on_map(placements.drop_last(), territories);
    }
}

/// After placing, the first `upto` territories hold the troops they held and
/// those placed on them.
proof fn lemma_troops_after_placing(map: TerritoryStateView, placements: Seq<(u8, u8)>, upto: int)
    requires
        placements_fit(map, placements),
        0 <= upto <= map.territories.len(),
    ensures
        troops_upto(map_after_placing(map, placements).territories, upto) == troops_upto(
            map.territories,
            upto,
        ) + placed_upto(placements, upto),
    decreases upto,
{
    if upto > 0 {
        lemma_troops_after_placing(map, placements, upto - 1);
        assert(map.territories[upto - 1].troops + placed_on(placements, upto - 1) <= u8::MAX);
    }
}

/// Nobody holds more territories than there are, or is due more bonus than all
/// continents grant.
proof fn lemma_due_bounds(
    map: TerritoryStateView,
    who: Identity,
    territories: int,
    continents: int,
)
    requires
        0 <= territories <= map.territories.len(),
        0 <= continents <= map.continents.len(),
    ensures
        map.owned_upto(who, territories) <= territories,
        map.bonus_upto(who, continents) <= bonus_sum(map.continents.take(continents)),
        map.bonus_upto(who, continents) <= bonus_sum(map.continents),
    decreases territories + continents,
{
    if territories > 0 {
        lemma_due_bounds(map, who, territories - 1, continents);
    }
    if continents > 0 {
        lemma_due_bounds(map, who, territories, continents - 1);
        assert(map.continents.take(continents).drop_last() == map.continents.take(continents - 1));
    }
    lemma_bonus_sum_prefix(map.continents, continents);
}

/// On a well-formed map the reinforcements that anyone is due fit the counter
/// that holds them, and are never fewer than three.
pub proof fn law_reinforcements_fit(map: TerritoryStateView, who: Identity)
    requires
        map.well_formed(),
    ensures
        3 <= map.reinforcement_due(who) <= u8::MAX,
{
    lemma_due_bounds(map, who, map.territories.len() as int, map.continents.len() as int);
    let owned = map.owned_count(who);
    let all = map.territories.len();
    assert(owned / 3 <= all / 3) by (nonlinear_arith)
        requires
            owned <= all,
    ;
}

/// Reinforcements are placed in full or not at all. Placements are accepted
/// only if they place exactly the troops that wait to be placed, and then the
/// troops on the map grow by exactly that number. Placements that place another
/// number are refused as an invalid troop count whenever the turn is in order
/// and reinforcements are waiting.
pub proof fn law_placements_match_pending(
    game: GameView,
    map: TerritoryStateView,
    player: Identity,
    authority: Identity,
    placements: Seq<(u8, u8)>,
)
    requires
        place_refusal(game, map, player, authority, placements) is None ==> placements_fit(
            map,
            placements,
        ),
    ensures
        place_refusal(game, map, player, authority, placements) is None ==> {
            &&& game.pending_reinforcements == Some(placed_total(placements) as u8)
            &&& placed_total(placements) <= u8::MAX
            &&& troops_on_map(map_after_placing(map, placements)) == troops_on_map(map)
                + placed_total(placements)
        },
        turn_refusal(game, player, TurnPhase::Reinforcement) is None
            && game.pending_reinforcements is Some && placed_total(placements)
            != game.pending_reinforcements->0 ==> place_refusal(
            game,
            map,
            player,
            authority,
            placements,
        ) == Some(ErrorCode::InvalidTroopCount),
{
    if place_refusal(game, map, player, authority, placements) is None {
        assert forall|i: int| 0 <= i < placements.len() implies (#[trigger] placements[i]).0
            < map.territories.len() by {
            assert(map.held_by(placements[i].0, player));
        }
        lemma_placed_on_map(placements, map.territories.len() as int);
        lemma_troops_after_placing(map, placements, map.territories.len() as int);
    }
}

/// The losses of an attack depend on the dice alone: the same dice give the
/// same losses, whatever else is the case.
pub proof fn law_same_dice_same_losses(
    first_attacker: Seq<u8>,
    first_defender: Seq<u8>,
    second_attacker: Seq<u8>,
    second_defender: Seq<u8>,
)
    requires
        first_attacker == second_attacker,
        first_defender == second_defender,
    ensures
        attacker_losses(
            first_attacker,
            first_defender,
            compared_pairs(first_attacker, first_defender),
        ) == attacker_losses(
            second_attacker,
            second_defender,
            compared_pairs(second_attacker, second_defender),
        ),
        defender_losses(
            first_attacker,
            first_defender,
            compared_pairs(first_attacker, first_defender),
        ) == defender_losses(
            second_attacker,
            second_defender,
            compared_pairs(second_attacker, second_defender),
        ),
{
}

/// The troops on territory `id`.
pub open spec fn troops_at(map: TerritoryStateView, id: u8) -> u8 {
    map.territories[id as int].troops
}

/// Whether no two placements name the same territory.
pub open spec fn on_different_territories(placements: Seq<(u8, u8)>) -> bool {
    forall|i: int, j: int|
        0 <= i < j < placements.len() ==> (#[trigger] placements[i]).0 != (
        #[trigger] placements[j]).0
}

/// Where no two placements name the same territory, a territory that is named
/// is given the troops of the one placement that names it.
proof fn lemma_placed_once(placements: Seq<(u8, u8)>, i: int)
    requires
        on_different_territories(placements),
        0 <= i < placements.len(),
    ensures
        placed_on(placements, placements[i].0 as int) == placements[i].1,
    decreases placements.len(),
{
    let last = placements.len() - 1;
    let rest = placements.drop_last();
    assert forall|a: int, b: int| 0 <= a < b < rest.len() implies (#[trigger] rest[a]).0 != (
    #[trigger] rest[b]).0 by {
        assert(placements[a].0 != placements[b].0);
    }
    if i == last {
        lemma_not_placed(rest, placements[i].0 as int, placements, i);
    } else {
        assert(placements[i].0 != placements[last].0);
        lemma_placed_once(rest, i);
    }
}

/// The first placements of a list in which the placement at `i` is the only
/// one on its territory, taken from before `i`, place nothing on it.
proof fn lemma_not_placed(rest: Seq<(u8, u8)>, position: int, placements: Seq<(u8, u8)>, i: int)
    requires
        on_different_territories(placements),
        0 <= i < placements.len(),
        position == placements[i].0,
        rest.len() <= i,
        forall|k: int| 0 <= k < rest.len() ==> rest[k] == placements[k],
    ensures
        placed_on(rest, position) == 0,
    decreases rest.len(),
{
    if rest.len() > 0 {
        let k = rest.len() - 1;
        assert(rest[k] == placements[k]);
        assert(placements[k].0 != placements[i].0);
        lemma_not_placed(rest.drop_last(), position, placements, i);
    }
}

/// Placements that are in order are placed in full. In the reinforcement phase
/// of the player's turn, placements on territories of the player that add up to
/// what waits to be placed, made under the credential of the territory store,
/// are accepted. Every territory then has the troops it had and those placed
/// on it, with its holder as before; where no two placements name the same
/// territory, each named territory has gained the troops of its placement. The
/// map has gained exactly what was waiting, nothing is left waiting, the attack
/// phase has begun, and the turn is still the player's.
pub proof fn law_placements_in_order_are_placed(
    game: GameView,
    map: TerritoryStateView,
    player: Identity,
    authority: Identity,
    placements: Seq<(u8, u8)>,
)
    requires
        game.state == GameState::InProgress,
        game.current_player == player,
        game.current_phase == TurnPhase::Reinforcement,
        game.pending_reinforcements == Some(placed_total(placements) as u8),
        placed_total(placements) <= u8::MAX,
        all_held(map, placements, player),
        map.authority == authority,
        placements_fit(map, placements),
    ensures
        place_refusal(game, map, player, authority, placements) is None,
        map_after_placing(map, placements).territories.len() == map.territories.len(),
        forall|t: int|
            0 <= t < map.territories.len() ==> {
                &&& (#[trigger] map_after_placing(map, placements).territories[t]).troops
                    == map.territories[t].troops + placed_on(placements, t)
                &&& map_after_placing(map, placements).territories[t].owner
                    == map.territories[t].owner
            },
        on_different_territories(placements) ==> forall|i: int|
            0 <= i < placements.len() ==> troops_at(
                map_after_placing(map, placements),
                (#[trigger] placements[i]).0,
            ) == troops_at(map, placements[i].0) + placements[i].1,
        troops_on_map(map_after_placing(map, placements)) == troops_on_map(map) + placed_total(
            placements,
        ),
        game_after_placing(game).pending_reinforcements is None,
        game_after_placing(game).current_phase == TurnPhase::Attack,
        game_after_placing(game).current_player == player,
        game_after_placing(game).turn == game.turn,
        game_after_placing(game).state == game.state,
{
    law_placements_match_pending(game, map, player, authority, placements);
    let after = map_after_placing(map, placements);
    assert forall|t: int| 0 <= t < map.territories.len() implies {
        &&& (#[trigger] after.territories[t]).troops == map.territories[t].troops + placed_on(
            placements,
            t,
        )
        &&& after.territories[t].owner == map.territories[t].owner
    } by {
        assert(map.territories[t].troops + placed_on(placements, t) <= u8::MAX);
    }
    if on_different_territories(placements) {
        assert forall|i: int| 0 <= i < placements.len() implies troops_at(
            after,
            (#[trigger] placements[i]).0,
        ) == troops_at(map, placements[i].0) + placements[i].1 by {
            assert(map.held_by(placements[i].0, player));
            lemma_placed_once(placements, i);
            let t = placements[i].0 as int;
            assert(after.territories[t].troops == map.territories[t].troops + placed_on(
                placements,
                t,
            ));
        }
    }
}

/// A conqueror is handed a card at the end of the turn. At the end of the
/// fortification phase, a player who conquered a territory this turn and holds
/// fewer than five cards gets the card that the draw stands for at the end of
/// the hand, and the mark of the conquest is cleared. Nobody else's record
/// changes, the next player's reinforcement phase begins, and the turn counter
/// goes up by one.
pub proof fn law_conqueror_is_handed_a_card(
    game: GameView,
    roster: PlayerStateView,
    player: Identity,
    authority: Identity,
    draw: u8,
)
    requires
        game.state == GameState::InProgress,
        game.current_player == player,
        game.current_phase == TurnPhase::Fortification,
        roster.has(player),
        roster.players[roster.seat(player)].conquered_territory_this_turn,
        roster.players[roster.seat(player)].cards.len() < HAND_LIMIT,
        roster.authority == authority,
        game.turn < u8::MAX,
    ensures
        end_phase_refusal(game, roster, player, authority) is None,
        ({
            let seat = roster.seat(player);
            let after = roster_after_end_phase(game, roster, player, draw);
            &&& after.players.len() == roster.players.len()
            &&& after.players[seat].cards == roster.players[seat].cards.push(
                crate::cards::drawn_card(draw),
            )
            &&& !after.players[seat].conquered_territory_this_turn
            &&& after.players[seat].pubkey == player
            &&& after.players[seat].color == roster.players[seat].color
            &&& forall|other: int|
                0 <= other < roster.players.len() && other != seat
                    ==> #[trigger] after.players[other] == roster.players[other]
        }),
        game_after_end_phase(game, roster).turn == game.turn + 1,
        game_after_end_phase(game, roster).current_phase == TurnPhase::Reinforcement,
        game_after_end_phase(game, roster).current_player == roster.next_player(player),
{
    lemma_seat_from(roster.players, player, 0);
    let record = roster.players[roster.seat(player)];
    let rewarded = roster.with_cards(player, record.cards.push(crate::cards::drawn_card(draw)));
    lemma_same_identities_same_seats(roster.players, rewarded.players, player, 0);
}

/// A move needs a way, whoever holds the target. When the turn is in order and
/// the player holds `from` with troops to spare, a move to a territory that
/// the player does not hold is refused as not connected: no march ends there.
/// A move to a territory that can be reached is accepted under the credential
/// of the territory store.
pub proof fn law_no_way_to_foreign_land(
    game: GameView,
    map: TerritoryStateView,
    player: Identity,
    authority: Identity,
    from: u8,
    to: u8,
    troops: u8,
)
    requires
        turn_refusal(game, player, TurnPhase::Fortification) is None,
        map.held_by(from, player),
        troops < map.territories[from as int].troops,
    ensures
        !map.held_by(to, player) ==> fortify_refusal(
            game,
            map,
            player,
            authority,
            from,
            to,
            troops,
        ) == Some(ErrorCode::TerritoriesNotConnected),
        !map.connected(from, to, player) ==> fortify_refusal(
            game,
            map,
            player,
            authority,
            from,
            to,
            troops,
        ) == Some(ErrorCode::TerritoriesNotConnected),
        map.connected(from, to, player) && map.authority == authority ==> fortify_refusal(
            game,
            map,
            player,
            authority,
            from,
            to,
            troops,
        ) is None && map.held_by(to, player),
{
    if map.connected(from, to, player) {
        crate::connectivity::lemma_march_ends_at_home(map, from, to, player);
    }
}

/// The second player's join deals the map. A join that starts the game leaves
/// every territory with three troops and a holder from the roster as it stands
/// after the join, on the same map as before.
pub proof fn law_join_deals_the_map(
    game: GameView,
    map: TerritoryStateView,
    roster: PlayerStateView,
    authority: Identity,
    player: Identity,
    color: PlayerColor,
)
    requires
        join_refusal(game, map, roster, authority, color) is None,
        join_starts_game(roster),
    ensures
        ({
            let joined = roster.with_player(new_player(player, color));
            let after = map_after_join(map, roster, new_player(player, color));
            &&& map.same_map(after)
            &&& after.garrisoned()
            &&& forall|t: int|
                0 <= t < map.territories.len() ==> {
                    &&& (#[trigger] after.territories[t]).troops == 3
                    &&& 0 <= dealt_seat(joined, t) < joined.players.len()
                    &&& after.territories[t].owner == Some(
                        joined.players[dealt_seat(joined, t)].pubkey,
                    )
                }
        }),
{
    let joined = roster.with_player(new_player(player, color));
    law_deal_garrisons(map, joined);
}

/// A tie goes to the defender: where every compared pair of dice shows the same
/// face on both sides, the attacker loses a troop for each pair and the defender
/// loses none.
pub proof fn law_tie_favors_defender(attacker: Seq<u8>, defender: Seq<u8>, pairs: nat)
    requires
        pairs <= compared_pairs(attacker, defender),
        forall|i: int| 0 <= i < pairs ==> attacker[i] == defender[i],
    ensures
        attacker_losses(attacker, defender, pairs) == pairs,
        defender_losses(attacker, defender, pairs) == 0,
    decreases pairs,
{
    if pairs > 0 {
        law_tie_favors_defender(attacker, defender, (pairs - 1) as nat);
    }
}

/// A completed session is final: every operation on it is refused, whoever
/// asks, and so changes nothing.
pub proof fn law_completed_is_final(
    game: GameView,
    map: TerritoryStateView,
    roster: PlayerStateView,
    player: Identity,
    authority: Identity,
    from: u8,
    to: u8,
    count: u8,
    entropy: DiceEntropy,
    placements: Seq<(u8, u8)>,
    indices: Seq<u8>,
    color: PlayerColor,
    color_name: Seq<char>,
)
    requires
        game.state == GameState::Completed,
    ensures
        join_refusal(game, map, roster, authority, color) == Some(ErrorCode::GameAlreadyStarted),
        join_by_name_refusal(game, map, roster, authority, color_name) == Some(
            ErrorCode::GameAlreadyStarted,
        ),
        distribution_refusal(game, map, roster, authority) == Some(
            ErrorCode::GameNotInProgress,
        ),
        start_turn_refusal(game, player) == Some(ErrorCode::GameNotInProgress),
        place_refusal(game, map, player, authority, placements) == Some(
            ErrorCode::GameNotInProgress,
        ),
        trade_refusal(game, roster, player, authority, indices) == Some(
            ErrorCode::GameNotInProgress,
        ),
        attack_refusal(game, map, roster, player, authority, from, to, count, entropy) == Some(
            ErrorCode::GameNotInProgress,
        ),
        fortify_refusal(game, map, player, authority, from, to, count) == Some(
            ErrorCode::GameNotInProgress,
        ),
        end_phase_refusal(game, roster, player, authority) == Some(ErrorCode::GameNotInProgress),
{
}

/// Victory ends the game: an attack that leaves one player holding every
/// territory completes the session, and one that does not leaves it in
/// progress.
pub proof fn law_victory_completes(
    game: GameView,
    map: TerritoryStateView,
    roster: PlayerStateView,
    player: Identity,
    authority: Identity,
    from: u8,
    to: u8,
    attacking_dice: u8,
    entropy: DiceEntropy,
)
    requires
        attack_refusal(game, map, roster, player, authority, from, to, attacking_dice, entropy)
            is None,
    ensures
        ({
            let dice = dice_of_attack(entropy, attacking_dice, map.territories[to as int].troops);
            let after = map_after_attack(map, player, from, to, attacking_dice, dice);
            game_after_attack(game, after, dice).state == if after.has_winner() {
                GameState::Completed
            } else {
                GameState::InProgress
            }
        }),
{
}

/// Ending the phase three times from the reinforcement phase, with nothing in
/// between, goes through attack and fortification back to reinforcement, and
/// passes the turn on exactly once, at the last of the three steps: until then
/// the player and the turn counter stay as they are, then the next player on
/// the roster is to play and the counter is one higher.
pub proof fn law_three_phases_make_a_turn(
    game: GameView,
    roster: PlayerStateView,
    player: Identity,
    authority: Identity,
    first_draw: u8,
    second_draw: u8,
    third_draw: u8,
)
    requires
        game.state == GameState::InProgress,
        game.current_player == player,
        game.current_phase == TurnPhase::Reinforcement,
        !game.reinforcements_outstanding(),
        roster.has(player),
        roster.players[roster.seat(player)].conquered_territory_this_turn ==> roster.authority
            == authority,
        game.turn < u8::MAX,
    ensures
        ({
            let game1 = game_after_end_phase(game, roster);
            let roster1 = roster_after_end_phase(game, roster, player, first_draw);
            let game2 = game_after_end_phase(game1, roster1);
            let roster2 = roster_after_end_phase(game1, roster1, player, second_draw);
            let game3 = game_after_end_phase(game2, roster2);
            &&& end_phase_refusal(game, roster, player, authority) is None
            &&& end_phase_refusal(game1, roster1, player, authority) is None
            &&& end_phase_refusal(game2, roster2, player, authority) is None
            &&& game1.current_phase == TurnPhase::Attack
            &&& game2.current_phase == TurnPhase::Fortification
            &&& game3.current_phase == TurnPhase::Reinforcement
            &&& game1.current_player == player && game1.turn == game.turn
            &&& game2.current_player == player && game2.turn == game.turn
            &&& game3.current_player == roster.next_player(player)
            &&& game3.turn == game.turn + 1
            &&& roster1 == roster && roster2 == roster
        }),
{
}

/// A card awarded and a set traded leave the hand two cards shorter: the hand
/// grows by the card and shrinks by the three of the set, and one more set
/// counts as redeemed.
pub proof fn law_award_then_trade(
    game: GameView,
    roster: PlayerStateView,
    player: Identity,
    authority: Identity,
    card: RiskCard,
    indices: Seq<u8>,
)
    requires
        award_refusal(roster, authority, player) is None,
        trade_refusal(
            game,
            roster.with_cards(player, roster.players[roster.seat(player)].cards.push(card)),
            player,
            authority,
            indices,
        ) is None,
        game.cards_sets_turned_in < u8::MAX,
    ensures
        ({
            let hand = roster.players[roster.seat(player)].cards;
            let awarded = roster.with_cards(player, hand.push(card));
            let traded = roster_after_trade(awarded, player, indices);
            &&& traded.players[traded.seat(player)].cards.len() + 2 == hand.len()
            &&& game_after_trade(game).cards_sets_turned_in == game.cards_sets_turned_in + 1
        }),
{
    let hand = roster.players[roster.seat(player)].cards;
    let awarded = roster.with_cards(player, hand.push(card));
    let traded = roster_after_trade(awarded, player, indices);
    lemma_seat_from(roster.players, player, 0);
    lemma_same_identities_same_seats(roster.players, awarded.players, player, 0);
    lemma_same_identities_same_seats(awarded.players, traded.players, player, 0);
    lemma_hand_without_len(hand.push(card), indices);
}

/// How far a session has come in its life.
pub open spec fn progress(state: GameState) -> nat {
    match state {
        GameState::Setup => 0,
        GameState::InProgress => 1,
        GameState::Completed => 2,
    }
}

/// A session only moves forward: joining a session in setup can start it, an
/// attack in a session in progress can complete it, and neither takes it back.
/// Ending a phase and trading cards leave its state alone. The turn counter
/// never goes down: ending a phase raises it by one or leaves it, and nothing
/// else touches it.
pub proof fn law_state_moves_forward(
    game: GameView,
    map_after: TerritoryStateView,
    roster: PlayerStateView,
    dice: crate::combat::AttackDiceView,
)
    ensures
        game.state == GameState::Setup ==> progress(game.state) <= progress(
            game_after_join(game, roster.players.len()).state,
        ),
        game.state == GameState::InProgress ==> progress(game.state) <= progress(
            game_after_attack(game, map_after, dice).state,
        ),
        game_after_end_phase(game, roster).state == game.state,
        game_after_trade(game).state == game.state,
        game_after_join(game, roster.players.len()).turn == game.turn,
        game_after_attack(game, map_after, dice).turn == game.turn,
        game_after_trade(game).turn == game.turn,
        game.turn < u8::MAX ==> game.turn <= game_after_end_phase(game, roster).turn <= game.turn
            + 1,
{
}

/// Whether no two players of the roster have the same colour.
pub open spec fn colors_differ(roster: PlayerStateView) -> bool {
    forall|i: int, j: int|
        0 <= i < j < roster.players.len() ==> (#[trigger] roster.players[i]).color != (
        #[trigger] roster.players[j]).color
}

/// Joining keeps the colours apart and the roster within its size: a roster
/// in which no two players share a colour is still one after a player joined,
/// and it has at most six players.
pub proof fn law_join_keeps_colors_apart(
    game: GameView,
    map: TerritoryStateView,
    roster: PlayerStateView,
    authority: Identity,
    player: Identity,
    color: PlayerColor,
)
    requires
        colors_differ(roster),
        join_refusal(game, map, roster, authority, color) is None,
    ensures
        colors_differ(roster.with_player(new_player(player, color))),
        roster.with_player(new_player(player, color)).players.len() <= crate::setup::MAX_PLAYERS,
{
    let after = roster.with_player(new_player(player, color));
    assert forall|i: int, j: int| 0 <= i < j < after.players.len() implies (
    #[trigger] after.players[i]).color != (#[trigger] after.players[j]).color by {
        if j < roster.players.len() {
            assert(roster.players[i].color != roster.players[j].color);
        } else {
            assert(roster.players[i].color != color);
        }
    }
}

/// No hand grows past five cards: a roster whose hands are within the limit
/// keeps them within it through the end of a turn and through a trade.
pub proof fn law_hands_stay_within_limit(
    game: GameView,
    roster: PlayerStateView,
    player: Identity,
    authority: Identity,
    draw: u8,
    indices: Seq<u8>,
)
    requires
        roster.hands_within_limit(),
    ensures
        end_phase_refusal(game, roster, player, authority) is None ==> roster_after_end_phase(
            game,
            roster,
            player,
            draw,
        ).hands_within_limit(),
        trade_refusal(game, roster, player, authority, indices) is None ==> roster_after_trade(
            roster,
            player,
            indices,
        ).hands_within_limit(),
{
    lemma_seat_from(roster.players, player, 0);
    if end_phase_refusal(game, roster, player, authority) is None {
        let after = roster_after_end_phase(game, roster, player, draw);
        if game.current_phase == TurnPhase::Fortification {
            let record = roster.players[roster.seat(player)];
            let card = crate::cards::drawn_card(draw);
            if record.conquered_territory_this_turn {
                let rewarded = if record.cards.len() < HAND_LIMIT {
                    roster.with_cards(player, record.cards.push(card))
                } else {
                    roster
                };
                lemma_same_identities_same_seats(roster.players, rewarded.players, player, 0);
                assert forall|i: int| 0 <= i < after.players.len() implies (
                #[trigger] after.players[i]).cards.len() <= HAND_LIMIT by {
                    assert(roster.players[i].cards.len() <= HAND_LIMIT);
                }
            }
        }
    }
    if trade_refusal(game, roster, player, authority, indices) is None {
        let after = roster_after_trade(roster, player, indices);
        let hand = roster.players[roster.seat(player)].cards;
        lemma_hand_without_len(hand, indices);
        assert forall|i: int| 0 <= i < after.players.len() implies (
        #[trigger] after.players[i]).cards.len() <= HAND_LIMIT by {
            assert(roster.players[i].cards.len() <= HAND_LIMIT);
        }
    }
}

/// An attack keeps the garrisons: if every held territory had a troop on it
/// before, every held territory has one after. The map itself is as it was, and
/// well formed if it was. A territory falls only to an attacker who lost no
/// troop, and is then the attacker's.
pub proof fn law_attack_keeps_garrisons(
    game: GameView,
    map: TerritoryStateView,
    roster: PlayerStateView,
    player: Identity,
    authority: Identity,
    from: u8,
    to: u8,
    attacking_dice: u8,
    entropy: DiceEntropy,
)
    requires
        map.garrisoned(),
        attack_refusal(game, map, roster, player, authority, from, to, attacking_dice, entropy)
            is None,
    ensures
        ({
            let dice = dice_of_attack(entropy, attacking_dice, map.territories[to as int].troops);
            let after = map_after_attack(map, player, from, to, attacking_dice, dice);
            &&& after.garrisoned()
            &&& map.same_map(after)
            &&& map.well_formed() ==> after.well_formed()
            &&& conquers(dice, map.territories[to as int].troops) ==> after.held_by(to, player)
                && lost_by_attacker(dice) == 0
        }),
{
    let troops = map.territories[to as int].troops;
    let dice = dice_of_attack(entropy, attacking_dice, troops);
    lemma_dice_of_attack(entropy, attacking_dice, troops);
    let after = map_after_attack(map, player, from, to, attacking_dice, dice);
    if map.well_formed() {
        lemma_same_map_well_formed(map, after);
    }
    assert forall|t: int|
        0 <= t < after.territories.len() && (#[trigger] after.territories[t]).owner is Some implies
        after.territories[t].troops >= 1 by {
        if t != from && t != to {
            assert(after.territories[t] == map.territories[t]);
        }
    }
}

/// A move between two territories keeps the garrisons and the number of troops
/// on the map, and leaves a well-formed map well formed.
pub proof fn law_fortify_keeps_troops(
    game: GameView,
    map: TerritoryStateView,
    player: Identity,
    authority: Identity,
    from: u8,
    to: u8,
    troops: u8,
)
    requires
        map.garrisoned(),
        fortify_refusal(game, map, player, authority, from, to, troops) is None,
        from != to ==> map.territories[to as int].troops + troops <= u8::MAX,
    ensures
        map_after_fortify(map, from, to, troops).garrisoned(),
        map.same_map(map_after_fortify(map, from, to, troops)),
        map.well_formed() ==> map_after_fortify(map, from, to, troops).well_formed(),
        troops_on_map(map_after_fortify(map, from, to, troops)) == troops_on_map(map),
{
    let after = map_after_fortify(map, from, to, troops);
    crate::connectivity::lemma_march_ends_at_home(map, from, to, player);
    if map.well_formed() {
        lemma_same_map_well_formed(map, after);
    }
    assert forall|t: int|
        0 <= t < after.territories.len() && (#[trigger] after.territories[t]).owner is Some implies
        after.territories[t].troops >= 1 by {
        if t != from && t != to {
            assert(after.territories[t] == map.territories[t]);
        }
    }
    lemma_troops_after_move(map, after, from, to, troops, map.territories.len() as int);
}

/// After a move, the first `upto` territories hold the troops they held, less
/// those that left them and plus those that reached them.
proof fn lemma_troops_after_move(
    map: TerritoryStateView,
    after: TerritoryStateView,
    from: u8,
    to: u8,
    troops: u8,
    upto: int,
)
    requires
        after == map_after_fortify(map, from, to, troops),
        map.names(from),
        map.names(to),
        map.territories[from as int].troops > troops,
        from != to ==> map.territories[to as int].troops + troops <= u8::MAX,
        0 <= upto <= map.territories.len(),
    ensures
        troops_upto(after.territories, upto) + (if from != to && from < upto {
            troops as int
        } else {
            0
        }) == troops_upto(map.territories, upto) + (if from != to && to < upto {
            troops as int
        } else {
            0
        }),
    decreases upto,
{
    if upto > 0 {
        lemma_troops_after_move(map, after, from, to, troops, upto - 1);
        let t = upto - 1;
        if t != from && t != to {
            assert(after.territories[t] == map.territories[t]);
        }
    }
}

/// On a map whose roads run both ways, a player who can march from one own
/// territory to another can march back.
pub proof fn law_march_back(map: TerritoryStateView, start: u8, end: u8, owner: Identity)
    requires
        roads_run_both_ways(map),
        map.held_by(start, owner),
        map.connected(start, end, owner),
    ensures
        map.connected(end, start, owner),
{
    let route = choose|route: Seq<u8>| map.is_route(route, start, end, owner);
    let last = route.len() - 1;
    let back = Seq::new(route.len(), |i: int| route[last - i]);
    assert forall|i: int| #![trigger back[i]] 0 <= i < back.len() - 1 implies map.step(
        back[i],
        back[i + 1],
        owner,
    ) by {
        let here = last - i;
        assert(map.step(route[here - 1], route[here - 1 + 1], owner));
        assert(neighbours(map, route[here - 1]).contains(route[here]));
        if here - 1 > 0 {
            assert(map.step(route[here - 2], route[here - 2 + 1], owner));
        }
    }
    assert(map.is_route(back, end, start, owner));
}

/// Every territory that is dealt starts with three troops and a holder from
/// the roster, so a deal leaves the map garrisoned, and well formed if it was.
pub proof fn law_deal_garrisons(map: TerritoryStateView, roster: PlayerStateView)
    requires
        roster.players.len() > 0,
    ensures
        map_after_distribution(map, roster).garrisoned(),
        map.same_map(map_after_distribution(map, roster)),
        map.well_formed() ==> map_after_distribution(map, roster).well_formed(),
        forall|t: int|
            0 <= t < map.territories.len() ==> {
                &&& (#[trigger] map_after_distribution(map, roster).territories[t]).troops == 3
                &&& exists|seat: int|
                    0 <= seat < roster.players.len() && map_after_distribution(
                        map,
                        roster,
                    ).territories[t].owner == Some(roster.players[seat].pubkey)
            },
{
    let after = map_after_distribution(map, roster);
    if map.well_formed() {
        lemma_same_map_well_formed(map, after);
    }
    assert forall|t: int| 0 <= t < map.territories.len() implies {
        &&& (#[trigger] after.territories[t]).troops == 3
        &&& exists|seat: int|
            0 <= seat < roster.players.len() && after.territories[t].owner == Some(
                roster.players[seat].pubkey,
            )
    } by {
        let seat = crate::setup::dealt_seat(roster, t);
        assert(0 <= seat < roster.players.len());
        assert(after.territories[t].owner == Some(roster.players[seat].pubkey));
    }
}

/// Placing reinforcements keeps the garrisons and the map, and leaves a
/// well-formed map well formed.
pub proof fn law_placing_keeps_garrisons(map: TerritoryStateView, placements: Seq<(u8, u8)>)
    requires
        map.garrisoned(),
        placements_fit(map, placements),
    ensures
        map_after_placing(map, placements).garrisoned(),
        map.same_map(map_after_placing(map, placements)),
        map.well_formed() ==> map_after_placing(map, placements).well_formed(),
{
    let after = map_after_placing(map, placements);
    if map.well_formed() {
        lemma_same_map_well_formed(map, after);
    }
    assert forall|t: int|
        0 <= t < after.territories.len() && (#[trigger] after.territories[t]).owner is Some implies
        after.territories[t].troops >= 1 by {
        assert(map.territories[t].owner is Some);
        assert(map.territories[t].troops + placed_on(placements, t) <= u8::MAX);
    }
}

} // verus!

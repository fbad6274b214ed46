//! The attack: dice against dice, losses on both sides, and conquest.

use vstd::prelude::*;
use vstd::slice::slice_subrange;
use crate::combat::{
    attacker_losses,
    compared_pairs,
    defender_losses,
    lemma_rolled_dice,
    resolve_combat,
    roll_dice,
    rolled,
    AttackDice,
    AttackDiceView,
    DiceEntropy,
};
use crate::game::{
    check_turn,
    check_victory_condition,
    from_player_error,
    from_territory_error,
    roster_refusal,
    turn_refusal,
    ErrorCode,
    Game,
    GameState,
    GameView,
    TurnPhase,
};
use crate::identity::Identity;
use crate::player::{
    find_player,
    set_conquered_territory,
    write_refusal,
    PlayerState,
    PlayerStateView,
};
use crate::territory::{update_territory, TerritoryState, TerritoryStateView};

verus! {

/// How many dice a territory with `troops` troops defends with: two, or as many
/// as it has troops if that is fewer.
pub open spec fn defender_dice(troops: u8) -> int {
    if troops < 2 {
        troops as int
    } else {
        2
    }
}

/// The dice of an attack with `attacking_dice` dice on a territory that holds
/// `defending_troops` troops: each side rolls from the front of its draws.
pub open spec fn dice_of_attack(
    entropy: DiceEntropy,
    attacking_dice: u8,
    defending_troops: u8,
) -> AttackDiceView {
    AttackDiceView {
        attacker: rolled(entropy.attacker@.take(attacking_dice as int)),
        defender: rolled(entropy.defender@.take(defender_dice(defending_troops))),
    }
}

/// The troops that the attacker loses to these dice.
pub open spec fn lost_by_attacker(dice: AttackDiceView) -> nat {
    attacker_losses(dice.attacker, dice.defender, compared_pairs(dice.attacker, dice.defender))
}

/// The troops that the defender loses to these dice.
pub open spec fn lost_by_defender(dice: AttackDiceView) -> nat {
    defender_losses(dice.attacker, dice.defender, compared_pairs(dice.attacker, dice.defender))
}

/// Whether a territory with `defending_troops` troops falls to these dice: it
/// does when it loses every troop it has.
pub open spec fn conquers(dice: AttackDiceView, defending_troops: u8) -> bool {
    defending_troops <= lost_by_defender(dice)
}

/// The territory store after `player` attacked `to` from `from` with the dice
/// `dice`. The attacker's losses leave `from`. If `to` falls it goes to the
/// attacker, with as many troops as dice were rolled less the attacker's losses;
/// otherwise it keeps its owner and loses the defender's losses.
pub open spec fn map_after_attack(
    map: TerritoryStateView,
    player: Identity,
    from: u8,
    to: u8,
    attacking_dice: u8,
    dice: AttackDiceView,
) -> TerritoryStateView {
    let defending = map.territories[to as int];
    let thinned = map.with_territory(
        from,
        Some(player),
        (map.territories[from as int].troops - lost_by_attacker(dice)) as u8,
    );
    if conquers(dice, defending.troops) {
        thinned.with_territory(to, Some(player), (attacking_dice - lost_by_attacker(dice)) as u8)
    } else {
        thinned.with_territory(
            to,
            defending.owner,
            (defending.troops - lost_by_defender(dice)) as u8,
        )
    }
}

/// Why an attack is refused, if it is. The turn is looked at first; then that
/// the attacker holds `from`, that `from` has more troops than dice are rolled,
/// that one to three dice are rolled, and that `to` is a territory of the map
/// which the attacker does not hold; then the credential for the territory
/// store; and, where the dice make `to` fall, the credential for the roster and
/// that the attacker is on it. A territory that is not on the map counts as one
/// that the attacker does not hold and cannot attack.
pub open spec fn attack_refusal(
    game: GameView,
    map: TerritoryStateView,
    roster: PlayerStateView,
    player: Identity,
    authority: Identity,
    from: u8,
    to: u8,
    attacking_dice: u8,
    entropy: DiceEntropy,
) -> Option<ErrorCode> {
    if turn_refusal(game, player, TurnPhase::Attack) is Some {
        turn_refusal(game, player, TurnPhase::Attack)
    } else if !map.held_by(from, player) {
        Some(ErrorCode::NotTerritoryOwner)
    } else if map.territories[from as int].troops <= attacking_dice {
        Some(ErrorCode::InsufficientTroops)
    } else if attacking_dice < 1 || attacking_dice > 3 {
        Some(ErrorCode::InvalidDiceCount)
    } else if !map.names(to) {
        Some(ErrorCode::NotTerritoryOwner)
    } else if map.held_by(to, player) {
        Some(ErrorCode::CannotAttackOwnTerritory)
    } else if map.authority != authority {
        Some(ErrorCode::InvalidAuthority)
    } else if conquers(
        dice_of_attack(entropy, attacking_dice, map.territories[to as int].troops),
        map.territories[to as int].troops,
    ) && write_refusal(roster, authority, player) is Some {
        Some(roster_refusal(write_refusal(roster, authority, player)->0))
    } else {
        None
    }
}

/// The roster after the attack: the attacker is marked as having conquered
/// this turn if `to` fell.
pub open spec fn roster_after_attack(
    roster: PlayerStateView,
    player: Identity,
    dice: AttackDiceView,
    defending_troops: u8,
) -> PlayerStateView {
    if conquers(dice, defending_troops) {
        roster.with_conquered(player, true)
    } else {
        roster
    }
}

/// The session after the attack: it remembers the dice, and it is completed if
/// the attack left one player holding every territory.
pub open spec fn game_after_attack(
    game: GameView,
    map_after: TerritoryStateView,
    dice: AttackDiceView,
) -> GameView {
    GameView {
        last_attack_dice: Some(dice),
        state: if map_after.has_winner() {
            GameState::Completed
        } else {
            game.state
        },
        ..game
    }
}

/// What the dice of an attack are like: each side has as many as it rolls, and
/// neither side can lose more than are compared.
pub proof fn lemma_dice_of_attack(entropy: DiceEntropy, attacking_dice: u8, defending_troops: u8)
    requires
        attacking_dice <= 3,
    ensures
        dice_of_attack(entropy, attacking_dice, defending_troops).attacker.len() == attacking_dice,
        dice_of_attack(entropy, attacking_dice, defending_troops).defender.len() == defender_dice(
            defending_troops,
        ),
        lost_by_attacker(dice_of_attack(entropy, attacking_dice, defending_troops))
            + lost_by_defender(dice_of_attack(entropy, attacking_dice, defending_troops))
            == compared_pairs(
            dice_of_attack(entropy, attacking_dice, defending_troops).attacker,
            dice_of_attack(entropy, attacking_dice, defending_troops).defender,
        ),
{
    let dice = dice_of_attack(entropy, attacking_dice, defending_troops);
    lemma_rolled_dice(entropy.attacker@.take(attacking_dice as int));
    lemma_rolled_dice(entropy.defender@.take(defender_dice(defending_troops)));
    crate::combat::lemma_losses_partition(
        dice.attacker,
        dice.defender,
        compared_pairs(dice.attacker, dice.defender),
    );
}

/// Attacks territory `to_territory` from `from_territory` with `attacking_dice`
/// dice, on behalf of `player`, writing to the stores under the credential
/// `authority`. The dice are rolled from `entropy`.
///
/// A refused attack changes nothing. Otherwise the session remembers the dice,
/// both territories take their losses, a fallen territory changes hands and
/// marks the attacker as a conqueror of this turn, and the session is completed
/// if one player now holds every territory.
pub fn attack(
    game: &mut Game,
    territory_state: &mut TerritoryState,
    player_state: &mut PlayerState,
    player: &Identity,
    authority: &Identity,
    from_territory: u8,
    to_territory: u8,
    attacking_dice: u8,
    entropy: &DiceEntropy,
) -> (result: Result<(), ErrorCode>)
    requires
        old(game)@.holds_map(old(territory_state)@),
        old(game)@.holds_roster(old(player_state)@),
    ensures
        match attack_refusal(
            old(game)@,
            old(territory_state)@,
            old(player_state)@,
            *player,
            *authority,
            from_territory,
            to_territory,
            attacking_dice,
            *entropy,
        ) {
            Some(refusal) => {
                &&& result == Err::<(), ErrorCode>(refusal)
                &&& final(game)@ == old(game)@
                &&& final(territory_state)@ == old(territory_state)@
                &&& final(player_state)@ == old(player_state)@
            },
            None => {
                let dice = dice_of_attack(
                    *entropy,
                    attacking_dice,
                    old(territory_state)@.territories[to_territory as int].troops,
                );
                &&& result == Ok::<(), ErrorCode>(())
                &&& final(territory_state)@ == map_after_attack(
                    old(territory_state)@,
                    *player,
                    from_territory,
                    to_territory,
                    attacking_dice,
                    dice,
                )
                &&& final(player_state)@ == roster_after_attack(
                    old(player_state)@,
                    *player,
                    dice,
                    old(territory_state)@.territories[to_territory as int].troops,
                )
                &&& final(game)@ == game_after_attack(old(game)@, final(territory_state)@, dice)
            },
        },
{
    match check_turn(game, player, TurnPhase::Attack) {
        Err(refusal) => {
            return Err(refusal);
        },
        Ok(()) => {},
    }
    if from_territory as usize >= territory_state.territories.len()
        || territory_state.territories[from_territory as usize].owner != Some(*player) {
        return Err(ErrorCode::NotTerritoryOwner);
    }
    let attacking_troops = territory_state.territories[from_territory as usize].troops;
    if attacking_troops <= attacking_dice {
        return Err(ErrorCode::InsufficientTroops);
    }
    if attacking_dice < 1 || attacking_dice > 3 {
        return Err(ErrorCode::InvalidDiceCount);
    }
    if to_territory as usize >= territory_state.territories.len() {
        return Err(ErrorCode::NotTerritoryOwner);
    }
    if territory_state.territories[to_territory as usize].owner == Some(*player) {
        return Err(ErrorCode::CannotAttackOwnTerritory);
    }
    if territory_state.authority != *authority {
        return Err(ErrorCode::InvalidAuthority);
    }
    let defending_troops = territory_state.territories[to_territory as usize].troops;
    let defending_owner = territory_state.territories[to_territory as usize].owner;
    let defending_dice: usize = if defending_troops < 2 {
        defending_troops as usize
    } else {
        2
    };
    let attacker_dice = roll_dice(
        slice_subrange(entropy.attacker.as_slice(), 0, attacking_dice as usize),
    );
    let defender_dice = roll_dice(slice_subrange(entropy.defender.as_slice(), 0, defending_dice));
    let ghost dice = dice_of_attack(*entropy, attacking_dice, defending_troops);
    proof {
        lemma_dice_of_attack(*entropy, attacking_dice, defending_troops);
        assert(attacker_dice@ == dice.attacker);
        assert(defender_dice@ == dice.defender);
    }
    let (attacker_lost, defender_lost) = resolve_combat(
        attacker_dice.as_slice(),
        defender_dice.as_slice(),
    );
    let conquered = defending_troops <= defender_lost;
    if conquered {
        if player_state.authority != *authority {
            return Err(ErrorCode::InvalidAuthority);
        }
        if find_player(player_state, player).is_none() {
            return Err(ErrorCode::PlayerNotFound);
        }
    }
    game.last_attack_dice = Some(AttackDice { attacker: attacker_dice, defender: defender_dice });
    match update_territory(
        territory_state,
        authority,
        from_territory,
        Some(*player),
        attacking_troops - attacker_lost,
    ) {
        Err(refusal) => {
            return Err(from_territory_error(refusal));
        },
        Ok(()) => {},
    }
    if conquered {
        match update_territory(
            territory_state,
            authority,
            to_territory,
            Some(*player),
            attacking_dice - attacker_lost,
        ) {
            Err(refusal) => {
                return Err(from_territory_error(refusal));
            },
            Ok(()) => {},
        }
        match set_conquered_territory(player_state, authority, *player, true) {
            Err(refusal) => {
                return Err(from_player_error(refusal));
            },
            Ok(()) => {},
        }
    } else {
        match update_territory(
            territory_state,
            authority,
            to_territory,
            defending_owner,
            defending_troops - defender_lost,
        ) {
            Err(refusal) => {
                return Err(from_territory_error(refusal));
            },
            Ok(()) => {},
        }
    }
    check_victory_condition(game, territory_state);
    Ok(())
}

} // verus!

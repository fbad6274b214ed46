//! Moving troops between two territories of one player at the end of a turn.

use vstd::prelude::*;
use crate::connectivity::{are_territories_connected, lemma_march_ends_at_home};
use crate::game::{
    check_turn,
    from_territory_error,
    turn_refusal,
    ErrorCode,
    Game,
    GameView,
    TurnPhase,
};
use crate::identity::Identity;
use crate::territory::{update_territory, TerritoryState, TerritoryStateView};

verus! {

/// Why a move of `troops` troops from `from` to `to` is refused, if it is. The
/// turn is looked at first; then that the player holds `from` and that `from`
/// has more troops than are to move; then that `to` can be reached from `from`
/// through the player's territories; then the credential for the territory
/// store.
///
/// Every step of a march lands on a territory that the player holds. So a
/// target that another player holds, that nobody holds, or that is not on the
/// map cannot be reached, and the move is refused as not connected, whoever
/// holds the target.
pub open spec fn fortify_refusal(
    game: GameView,
    map: TerritoryStateView,
    player: Identity,
    authority: Identity,
    from: u8,
    to: u8,
    troops: u8,
) -> Option<ErrorCode> {
    if turn_refusal(game, player, TurnPhase::Fortification) is Some {
        turn_refusal(game, player, TurnPhase::Fortification)
    } else if !map.held_by(from, player) {
        Some(ErrorCode::NotTerritoryOwner)
    } else if map.territories[from as int].troops <= troops {
        Some(ErrorCode::InsufficientTroops)
    } else if !map.connected(from, to, player) {
        Some(ErrorCode::TerritoriesNotConnected)
    } else if map.authority != authority {
        Some(ErrorCode::InvalidAuthority)
    } else {
        None
    }
}

/// The territory store after `troops` troops moved from `from` to `to`. A move
/// from a territory to itself leaves it as it was.
pub open spec fn map_after_fortify(
    map: TerritoryStateView,
    from: u8,
    to: u8,
    troops: u8,
) -> TerritoryStateView {
    let left = map.with_troops(from, (map.territories[from as int].troops - troops) as u8);
    left.with_troops(to, (left.territories[to as int].troops + troops) as u8)
}

/// Moves `troops` troops from `from_territory` to `to_territory` on behalf of
/// `player`, writing to the territory store under the credential `authority`.
/// At least one troop stays behind, and the troops must have a way: `to` must
/// be reachable from `from` through territories that the player holds, so it
/// is itself one of them. A refused move changes nothing.
pub fn fortify(
    game: &Game,
    territory_state: &mut TerritoryState,
    player: &Identity,
    authority: &Identity,
    from_territory: u8,
    to_territory: u8,
    troops: u8,
) -> (result: Result<(), ErrorCode>)
    requires
        game@.holds_map(old(territory_state)@),
        old(territory_state)@.neighbours_named(),
        fortify_refusal(
            game@,
            old(territory_state)@,
            *player,
            *authority,
            from_territory,
            to_territory,
            troops,
        ) is None && from_territory != to_territory ==> old(
            territory_state,
        )@.territories[to_territory as int].troops + troops <= u8::MAX,
    ensures
        match fortify_refusal(
            game@,
            old(territory_state)@,
            *player,
            *authority,
            from_territory,
            to_territory,
            troops,
        ) {
            Some(refusal) => {
                &&& result == Err::<(), ErrorCode>(refusal)
                &&& final(territory_state)@ == old(territory_state)@
            },
            None => {
                &&& result == Ok::<(), ErrorCode>(())
                &&& final(territory_state)@ == map_after_fortify(
                    old(territory_state)@,
                    from_territory,
                    to_territory,
                    troops,
                )
                &&& old(territory_state)@.held_by(to_territory, *player)
            },
        },
        turn_refusal(game@, *player, TurnPhase::Fortification) is None && old(
            territory_state,
        )@.held_by(from_territory, *player) && troops < old(
            territory_state,
        )@.territories[from_territory as int].troops && !old(territory_state)@.held_by(
            to_territory,
            *player,
        ) ==> result == Err::<(), ErrorCode>(ErrorCode::TerritoriesNotConnected),
{
    proof {
        if old(territory_state)@.held_by(from_territory, *player) && old(
            territory_state,
        )@.connected(from_territory, to_territory, *player) {
            lemma_march_ends_at_home(
                old(territory_state)@,
                from_territory,
                to_territory,
                *player,
            );
        }
    }
    match check_turn(game, player, TurnPhase::Fortification) {
        Err(refusal) => {
            return Err(refusal);
        },
        Ok(()) => {},
    }
    let count = territory_state.territories.len();
    if from_territory as usize >= count
        || territory_state.territories[from_territory as usize].owner != Some(*player) {
        return Err(ErrorCode::NotTerritoryOwner);
    }
    let leaving_from = territory_state.territories[from_territory as usize].troops;
    if leaving_from <= troops {
        return Err(ErrorCode::InsufficientTroops);
    }
    if !are_territories_connected(territory_state, from_territory, to_territory, player) {
        return Err(ErrorCode::TerritoriesNotConnected);
    }
    if territory_state.authority != *authority {
        return Err(ErrorCode::InvalidAuthority);
    }
    match update_territory(
        territory_state,
        authority,
        from_territory,
        Some(*player),
        leaving_from - troops,
    ) {
        Err(refusal) => {
            return Err(from_territory_error(refusal));
        },
        Ok(()) => {},
    }
    proof {
        assert(territory_state.territories@.len() == territory_state@.territories.len());
        assert(territory_state.territories@[to_territory as int]@
            == territory_state@.territories[to_territory as int]);
    }
    let arriving_at = territory_state.territories[to_territory as usize].troops;
    match update_territory(
        territory_state,
        authority,
        to_territory,
        Some(*player),
        arriving_at + troops,
    ) {
        Err(refusal) => {
            return Err(from_territory_error(refusal));
        },
        Ok(()) => {},
    }
    Ok(())
}

} // verus!

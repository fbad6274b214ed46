//! Reinforcements: what a player is due at the start of a turn, and placing
//! them on the map.

use vstd::prelude::*;
use crate::game::{
    check_turn,
    from_territory_error,
    turn_refusal,
    ErrorCode,
    Game,
    GameView,
    TurnPhase,
};
use crate::identity::Identity;
use crate::territory::{
    base_reinforcement,
    update_territory,
    ContinentView,
    TerritoryState,
    TerritoryStateView,
    TerritoryView,
};

verus! {

impl TerritoryStateView {
    /// How many of the first `upto` territories `who` holds.
    pub open spec fn owned_upto(self, who: Identity, upto: int) -> nat
        decreases upto,
    {
        if upto <= 0 {
            0
        } else {
            self.owned_upto(who, upto - 1) + if self.territories[upto - 1].owner == Some(who) {
                1nat
            } else {
                0nat
            }
        }
    }

    /// How many territories `who` holds.
    pub open spec fn owned_count(self, who: Identity) -> nat {
        self.owned_upto(who, self.territories.len() as int)
    }

    /// Whether `who` holds every member of `continent`.
    pub open spec fn holds_continent(self, continent: ContinentView, who: Identity) -> bool {
        forall|k: int|
            0 <= k < continent.territories.len() ==> self.held_by(
                #[trigger] continent.territories[k],
                who,
            )
    }

    /// The bonus armies that `who` is due for the first `upto` continents: the
    /// bonus of each that `who` holds in full.
    pub open spec fn bonus_upto(self, who: Identity, upto: int) -> nat
        decreases upto,
    {
        if upto <= 0 {
            0
        } else {
            self.bonus_upto(who, upto - 1) + if self.holds_continent(
                self.continents[upto - 1],
                who,
            ) {
                self.continents[upto - 1].bonus_armies as nat
            } else {
                0nat
            }
        }
    }

    /// The reinforcements that `who` is due at the start of a turn: a third of
    /// the territories held, rounded down and at least three, and the bonus of
    /// every continent held in full.
    pub open spec fn reinforcement_due(self, who: Identity) -> nat {
        base_reinforcement(self.owned_count(who)) + self.bonus_upto(
            who,
            self.continents.len() as int,
        )
    }
}

/// The bonus for the first continents is no more than the bonus for all.
pub proof fn lemma_bonus_upto_grows(map: TerritoryStateView, who: Identity, fewer: int, more: int)
    requires
        fewer <= more,
    ensures
        map.bonus_upto(who, fewer) <= map.bonus_upto(who, more),
    decreases more - fewer,
{
    if fewer < more {
        lemma_bonus_upto_grows(map, who, fewer, more - 1);
    }
}

/// The reinforcements that `player` is due at the start of a turn.
pub fn calculate_reinforcements(territory_state: &TerritoryState, player: &Identity) -> (due: u8)
    requires
        territory_state@.members_named(),
        territory_state@.reinforcement_due(*player) <= u8::MAX,
    ensures
        due == territory_state@.reinforcement_due(*player),
{
    let ghost map = territory_state@;
    let count = territory_state.territories.len();
    let mut owned: usize = 0;
    let mut t: usize = 0;
    while t < count
        invariant
            t <= count,
            map == territory_state@,
            count == map.territories.len(),
            owned == map.owned_upto(*player, t as int),
            owned <= t,
        decreases count - t,
    {
        if territory_state.territories[t].owner == Some(*player) {
            owned += 1;
        }
        t += 1;
    }
    let base: usize = if owned / 3 >= 3 {
        owned / 3
    } else {
        3
    };
    let mut bonus: usize = 0;
    let mut c: usize = 0;
    let continents = territory_state.continents.len();
    while c < continents
        invariant
            c <= continents,
            map == territory_state@,
            map.members_named(),
            map.reinforcement_due(*player) <= u8::MAX,
            count == map.territories.len(),
            continents == map.continents.len(),
            bonus == map.bonus_upto(*player, c as int),
            bonus <= u8::MAX,
        decreases continents - c,
    {
        let members = &territory_state.continents[c].territories;
        let mut k: usize = 0;
        let mut all_held = true;
        while k < members.len() && all_held
            invariant
                k <= members@.len(),
                c < continents,
                map == territory_state@,
                map.members_named(),
                count == map.territories.len(),
                continents == map.continents.len(),
                members@ == map.continents[c as int].territories,
                all_held ==> forall|j: int|
                    0 <= j < k ==> map.held_by(#[trigger] members@[j], *player),
                !all_held ==> !map.holds_continent(map.continents[c as int], *player),
            decreases members@.len() - k,
        {
            let member = members[k];
            proof {
                assert(map.names(map.continents[c as int].territories[k as int]));
            }
            if territory_state.territories[member as usize].owner != Some(*player) {
                proof {
                    assert(!map.held_by(map.continents[c as int].territories[k as int], *player));
                }
                all_held = false;
            }
            k += 1;
        }
        proof {
            lemma_bonus_upto_grows(map, *player, c + 1, continents as int);
        }
        if all_held {
            bonus = bonus + territory_state.continents[c].bonus_armies as usize;
        }
        c += 1;
    }
    (base + bonus) as u8
}

/// Why a turn cannot be started, if so: it must be the player's turn, in the
/// reinforcement phase of a session in progress, and no reinforcements may wait
/// to be placed.
pub open spec fn start_turn_refusal(game: GameView, player: Identity) -> Option<ErrorCode> {
    if turn_refusal(game, player, TurnPhase::Reinforcement) is Some {
        turn_refusal(game, player, TurnPhase::Reinforcement)
    } else if game.reinforcements_outstanding() {
        Some(ErrorCode::InvalidPhase)
    } else {
        None
    }
}

/// Starts the turn of `player`: works out the reinforcements that the player is
/// due and keeps them as waiting to be placed. A refused call changes nothing.
pub fn start_turn(
    game: &mut Game,
    territory_state: &TerritoryState,
    player: &Identity,
) -> (result: Result<(), ErrorCode>)
    requires
        old(game)@.holds_map(territory_state@),
        territory_state@.members_named(),
        start_turn_refusal(old(game)@, *player) is None ==> territory_state@.reinforcement_due(
            *player,
        ) <= u8::MAX,
    ensures
        match start_turn_refusal(old(game)@, *player) {
            Some(refusal) => result == Err::<(), ErrorCode>(refusal) && final(game)@ == old(game)@,
            None => result == Ok::<(), ErrorCode>(()) && final(game)@ == (GameView {
                pending_reinforcements: Some(territory_state@.reinforcement_due(*player) as u8),
                ..old(game)@
            }),
        },
{
    match check_turn(game, player, TurnPhase::Reinforcement) {
        Err(refusal) => {
            return Err(refusal);
        },
        Ok(()) => {},
    }
    match game.pending_reinforcements {
        Some(pending) => {
            if pending > 0 {
                return Err(ErrorCode::InvalidPhase);
            }
        },
        None => {},
    }
    let reinforcements = calculate_reinforcements(territory_state, player);
    game.pending_reinforcements = Some(reinforcements);
    Ok(())
}

/// The troops that `placements` place in all.
pub open spec fn placed_total(placements: Seq<(u8, u8)>) -> nat
    decreases placements.len(),
{
    if placements.len() == 0 {
        0
    } else {
        placed_total(placements.drop_last()) + placements.last().1 as nat
    }
}

/// The troops that `placements` place on the territory at `position`. Several
/// placements on one territory add up.
pub open spec fn placed_on(placements: Seq<(u8, u8)>, position: int) -> nat
    decreases placements.len(),
{
    if placements.len() == 0 {
        0
    } else {
        placed_on(placements.drop_last(), position) + if placements.last().0 == position {
            placements.last().1 as nat
        } else {
            0nat
        }
    }
}

/// Whether `player` holds every territory that `placements` name.
pub open spec fn all_held(
    map: TerritoryStateView,
    placements: Seq<(u8, u8)>,
    player: Identity,
) -> bool {
    forall|i: int|
        0 <= i < placements.len() ==> map.held_by((#[trigger] placements[i]).0, player)
}

/// Whether no territory would be left with more troops than its counter holds.
pub open spec fn placements_fit(map: TerritoryStateView, placements: Seq<(u8, u8)>) -> bool {
    forall|t: int|
        0 <= t < map.territories.len() ==> map.territories[t].troops + #[trigger] placed_on(
            placements,
            t,
        ) <= u8::MAX
}

/// Why placements are refused, if they are. The turn is looked at first; then
/// that reinforcements are waiting, that the placements place exactly as many
/// troops as are waiting, and that the player holds every territory named; then
/// the credential for the territory store.
pub open spec fn place_refusal(
    game: GameView,
    map: TerritoryStateView,
    player: Identity,
    authority: Identity,
    placements: Seq<(u8, u8)>,
) -> Option<ErrorCode> {
    if turn_refusal(game, player, TurnPhase::Reinforcement) is Some {
        turn_refusal(game, player, TurnPhase::Reinforcement)
    } else if game.pending_reinforcements is None {
        Some(ErrorCode::NoReinforcements)
    } else if placed_total(placements) != game.pending_reinforcements->0 {
        Some(ErrorCode::InvalidTroopCount)
    } else if !all_held(map, placements, player) {
        Some(ErrorCode::NotTerritoryOwner)
    } else if map.authority != authority {
        Some(ErrorCode::InvalidAuthority)
    } else {
        None
    }
}

/// The territory store after `placements` were placed: every territory has the
/// troops it had and those placed on it.
pub open spec fn map_after_placing(
    map: TerritoryStateView,
    placements: Seq<(u8, u8)>,
) -> TerritoryStateView {
    TerritoryStateView {
        territories: Seq::new(
            map.territories.len(),
            |t: int|
                TerritoryView {
                    troops: (map.territories[t].troops + placed_on(placements, t)) as u8,
                    ..map.territories[t]
                },
        ),
        ..map
    }
}

/// The session after the reinforcements were placed: none are waiting, and the
/// attack phase has begun.
pub open spec fn game_after_placing(game: GameView) -> GameView {
    GameView { pending_reinforcements: None, current_phase: TurnPhase::Attack, ..game }
}

/// The first placements place no more, in all and on any one territory, than
/// all of them do.
pub proof fn lemma_placed_prefix(placements: Seq<(u8, u8)>, n: int, position: int)
    requires
        0 <= n <= placements.len(),
    ensures
        placed_total(placements.take(n)) <= placed_total(placements),
        placed_on(placements.take(n), position) <= placed_on(placements, position),
    decreases placements.len(),
{
    if n == placements.len() {
        assert(placements.take(n) == placements);
    } else {
        lemma_placed_prefix(placements.drop_last(), n, position);
        assert(placements.drop_last().take(n) == placements.take(n));
    }
}

/// Whether `placements` can be placed without leaving a territory with more
/// troops than its counter holds.
pub fn fits_on_map(territory_state: &TerritoryState, placements: &Vec<(u8, u8)>) -> (fits: bool)
    ensures
        fits == placements_fit(territory_state@, placements@),
{
    let ghost map = territory_state@;
    let ghost placed = placements@;
    let count = territory_state.territories.len();
    let mut t: usize = 0;
    while t < count
        invariant
            t <= count,
            map == territory_state@,
            placed == placements@,
            count == map.territories.len(),
            forall|a: int|
                0 <= a < t ==> map.territories[a].troops + #[trigger] placed_on(placed, a)
                    <= u8::MAX,
        decreases count - t,
    {
        let standing = territory_state.territories[t].troops as usize;
        let mut arriving: usize = 0;
        let mut i: usize = 0;
        while i < placements.len()
            invariant
                i <= placed.len(),
                t < count,
                map == territory_state@,
                placed == placements@,
                count == map.territories.len(),
                standing == map.territories[t as int].troops,
                arriving == placed_on(placed.take(i as int), t as int),
                standing + arriving <= u8::MAX,
            decreases placed.len() - i,
        {
            proof {
                assert(placed.take(i + 1).drop_last() == placed.take(i as int));
                lemma_placed_prefix(placed, i + 1, t as int);
            }
            if placements[i].0 as usize == t {
                arriving = arriving + placements[i].1 as usize;
                if standing + arriving > 255 {
                    proof {
                        assert(!(map.territories[t as int].troops + placed_on(placed, t as int)
                            <= u8::MAX));
                    }
                    return false;
                }
            }
            i += 1;
        }
        proof {
            assert(placed.take(placed.len() as int) == placed);
        }
        t += 1;
    }
    true
}

/// Places the reinforcements of `player`: each of `placements` names a
/// territory and the troops to put on it. The troops must add up to exactly
/// what is waiting to be placed, and the player must hold every territory
/// named; a placement of no troops is in order, and several on one territory
/// add up. The store is written under the credential `authority`.
///
/// Refused placements change nothing: they are never placed in part. Otherwise
/// the troops are added, none are left waiting, and the attack phase begins.
#[verifier::loop_isolation(false)]
pub fn place_reinforcements(
    game: &mut Game,
    territory_state: &mut TerritoryState,
    player: &Identity,
    authority: &Identity,
    placements: Vec<(u8, u8)>,
) -> (result: Result<(), ErrorCode>)
    requires
        old(game)@.holds_map(old(territory_state)@),
        place_refusal(old(game)@, old(territory_state)@, *player, *authority, placements@)
            is None ==> placements_fit(old(territory_state)@, placements@),
    ensures
        match place_refusal(old(game)@, old(territory_state)@, *player, *authority, placements@) {
            Some(refusal) => {
                &&& result == Err::<(), ErrorCode>(refusal)
                &&& final(game)@ == old(game)@
                &&& final(territory_state)@ == old(territory_state)@
            },
            None => {
                &&& result == Ok::<(), ErrorCode>(())
                &&& placed_total(placements@) == old(game).pending_reinforcements->0
                &&& final(game)@ == game_after_placing(old(game)@)
                &&& final(territory_state)@ == map_after_placing(
                    old(territory_state)@,
                    placements@,
                )
            },
        },
{
    match check_turn(game, player, TurnPhase::Reinforcement) {
        Err(refusal) => {
            return Err(refusal);
        },
        Ok(()) => {},
    }
    let reinforcements = match game.pending_reinforcements {
        Some(pending) => pending,
        None => {
            return Err(ErrorCode::NoReinforcements);
        },
    };
    let ghost map = territory_state@;
    let ghost placed = placements@;
    let mut total: usize = 0;
    let mut i: usize = 0;
    while i < placements.len()
        invariant
            i <= placed.len(),
            total == placed_total(placed.take(i as int)),
            total <= reinforcements,
        decreases placed.len() - i,
    {
        proof {
            assert(placed.take(i + 1).drop_last() == placed.take(i as int));
            lemma_placed_prefix(placed, i + 1, 0);
        }
        total = total + placements[i].1 as usize;
        if total > reinforcements as usize {
            return Err(ErrorCode::InvalidTroopCount);
        }
        i += 1;
    }
    proof {
        assert(placed.take(placed.len() as int) == placed);
    }
    if total != reinforcements as usize {
        return Err(ErrorCode::InvalidTroopCount);
    }
    let count = territory_state.territories.len();
    let mut i: usize = 0;
    while i < placements.len()
        invariant
            i <= placed.len(),
            forall|j: int| 0 <= j < i ==> map.held_by((#[trigger] placed[j]).0, *player),
        decreases placed.len() - i,
    {
        let territory_id = placements[i].0;
        if territory_id as usize >= count
            || territory_state.territories[territory_id as usize].owner != Some(*player) {
            proof {
                assert(!map.held_by(placed[i as int].0, *player));
            }
            return Err(ErrorCode::NotTerritoryOwner);
        }
        i += 1;
    }
    if territory_state.authority != *authority {
        return Err(ErrorCode::InvalidAuthority);
    }
    proof {
        assert(map_after_placing(map, placed.take(0)).territories =~= map.territories);
    }
    let mut i: usize = 0;
    while i < placements.len()
        invariant
            i <= placed.len(),
            territory_state@ == map_after_placing(map, placed.take(i as int)),
        decreases placed.len() - i,
    {
        let territory_id = placements[i].0;
        let troops = placements[i].1;
        let ghost before = territory_state@;
        proof {
            assert(map.held_by(placed[i as int].0, *player));
            assert(placed.take(i + 1).drop_last() == placed.take(i as int));
            lemma_placed_prefix(placed, i + 1, territory_id as int);
            assert(map.territories[territory_id as int].troops + placed_on(
                placed,
                territory_id as int,
            ) <= u8::MAX);
            assert(territory_state.territories@.len() == territory_state@.territories.len());
            assert(territory_state.territories@[territory_id as int]@
                == territory_state@.territories[territory_id as int]);
        }
        let standing = territory_state.territories[territory_id as usize].troops;
        match update_territory(
            territory_state,
            authority,
            territory_id,
            Some(*player),
            standing + troops,
        ) {
            Err(refusal) => {
                return Err(from_territory_error(refusal));
            },
            Ok(()) => {},
        }
        proof {
            let after = map_after_placing(map, placed.take(i + 1));
            assert forall|t: int|
                0 <= t < map.territories.len() implies territory_state@.territories[t]
                == after.territories[t] by {
                if t != territory_id {
                    assert(territory_state@.territories[t] == before.territories[t]);
                }
            }
            assert(territory_state@.territories =~= after.territories);
        }
        i += 1;
    }
    game.pending_reinforcements = None;
    game.current_phase = TurnPhase::Attack;
    Ok(())
}

} // verus!

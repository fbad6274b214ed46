//! The territory store: the map, who holds each territory and with how many
//! troops, and the one gated way of writing to it.

use vstd::prelude::*;
use crate::identity::Identity;

verus! {

/// One territory of the map.
#[derive(Clone, Debug, PartialEq, Eq)]
pub struct Territory {
    pub id: u8,
    pub continent_id: u8,
    pub owner: Option<Identity>,
    pub troops: u8,
    pub adjacent_territories: Vec<u8>,
}

/// What a `Territory` holds, with its neighbours as a sequence.
pub struct TerritoryView {
    pub id: u8,
    pub continent_id: u8,
    pub owner: Option<Identity>,
    pub troops: u8,
    pub adjacent_territories: Seq<u8>,
}

impl View for Territory {
    type V = TerritoryView;

    open spec fn view(&self) -> TerritoryView {
        TerritoryView {
            id: self.id,
            continent_id: self.continent_id,
            owner: self.owner,
            troops: self.troops,
            adjacent_territories: self.adjacent_territories@,
        }
    }
}

/// A continent: its member territories and the armies granted for holding all
/// of them.
#[derive(Clone, Debug, PartialEq, Eq)]
pub struct Continent {
    pub id: u8,
    pub territories: Vec<u8>,
    pub bonus_armies: u8,
}

/// What a `Continent` holds, with its members as a sequence.
pub struct ContinentView {
    pub id: u8,
    pub territories: Seq<u8>,
    pub bonus_armies: u8,
}

impl View for Continent {
    type V = ContinentView;

    open spec fn view(&self) -> ContinentView {
        ContinentView {
            id: self.id,
            territories: self.territories@,
            bonus_armies: self.bonus_armies,
        }
    }
}

/// The territory store. A territory is named by its position in `territories`.
/// `game` is the session that the store belongs to, `authority` the credential
/// that may write to it.
#[derive(Clone, Debug, PartialEq, Eq)]
pub struct TerritoryState {
    pub territories: Vec<Territory>,
    pub continents: Vec<Continent>,
    pub game: Identity,
    pub authority: Identity,
}

/// The territory store as a mathematical value.
pub struct TerritoryStateView {
    pub territories: Seq<TerritoryView>,
    pub continents: Seq<ContinentView>,
    pub game: Identity,
    pub authority: Identity,
}

impl View for TerritoryState {
    type V = TerritoryStateView;

    open spec fn view(&self) -> TerritoryStateView {
        TerritoryStateView {
            territories: self.territories@.map_values(|t: Territory| t@),
            continents: self.continents@.map_values(|c: Continent| c@),
            game: self.game,
            authority: self.authority,
        }
    }
}

/// Why the territory store refused a write.
#[derive(Clone, Copy, Debug, PartialEq, Eq, Structural)]
pub enum TerritoryError {
    /// The credential shown is not the store's authority.
    InvalidAuthority,
}

/// The armies that all the continents together could grant.
pub open spec fn bonus_sum(continents: Seq<ContinentView>) -> nat
    decreases continents.len(),
{
    if continents.len() == 0 {
        0
    } else {
        bonus_sum(continents.drop_last()) + continents.last().bonus_armies as nat
    }
}

/// The base reinforcement for holding `owned` territories: a third of them,
/// rounded down, and never fewer than three.
pub open spec fn base_reinforcement(owned: nat) -> nat {
    if owned / 3 >= 3 {
        owned / 3
    } else {
        3
    }
}

impl TerritoryStateView {
    /// Whether `id` names a territory of this store.
    pub open spec fn names(self, id: u8) -> bool {
        (id as int) < self.territories.len()
    }

    /// Whether every neighbour that a territory lists is a territory of the store.
    pub open spec fn neighbours_named(self) -> bool {
        forall|t: int, k: int|
            0 <= t < self.territories.len() && 0 <= k
                < self.territories[t].adjacent_territories.len() ==> self.names(
                #[trigger] self.territories[t].adjacent_territories[k],
            )
    }

    /// Whether every member that a continent lists is a territory of the store.
    pub open spec fn members_named(self) -> bool {
        forall|c: int, k: int|
            0 <= c < self.continents.len() && 0 <= k < self.continents[c].territories.len()
                ==> self.names(#[trigger] self.continents[c].territories[k])
    }

    /// The largest reinforcement that any holder of this map could be due: the
    /// base for holding every territory, and every continent's bonus.
    pub open spec fn largest_reinforcement(self) -> nat {
        base_reinforcement(self.territories.len()) + bonus_sum(self.continents)
    }

    /// A store is well formed when its neighbour and member lists name
    /// territories of the store only, and the largest reinforcement that its
    /// map could yield fits the counter that holds pending reinforcements.
    pub open spec fn well_formed(self) -> bool {
        &&& self.neighbours_named()
        &&& self.members_named()
        &&& self.largest_reinforcement() <= u8::MAX
    }

    /// Whether `who` holds territory `id`.
    pub open spec fn held_by(self, id: u8, who: Identity) -> bool {
        self.names(id) && self.territories[id as int].owner == Some(who)
    }

    /// The store after territory `id` got the owner `owner` and `troops` troops.
    pub open spec fn with_territory(self, id: u8, owner: Option<Identity>, troops: u8) -> Self {
        TerritoryStateView {
            territories: self.territories.update(
                id as int,
                TerritoryView { owner, troops, ..self.territories[id as int] },
            ),
            ..self
        }
    }

    /// The store after the troops on territory `id` became `troops`.
    pub open spec fn with_troops(self, id: u8, troops: u8) -> Self {
        self.with_territory(id, self.territories[id as int].owner, troops)
    }

    /// Whether every territory that has an owner has at least one troop on it.
    pub open spec fn garrisoned(self) -> bool {
        forall|t: int|
            0 <= t < self.territories.len() && (#[trigger] self.territories[t]).owner is Some
                ==> self.territories[t].troops >= 1
    }

    /// Whether `other` is the same map: the same territories, neighbours and
    /// continents, belonging to the same session under the same authority, and
    /// differing at most in who holds a territory and with how many troops.
    pub open spec fn same_map(self, other: Self) -> bool {
        &&& self.continents == other.continents
        &&& self.game == other.game
        &&& self.authority == other.authority
        &&& self.territories.len() == other.territories.len()
        &&& forall|t: int|
            0 <= t < self.territories.len() ==> {
                &&& (#[trigger] self.territories[t]).id == other.territories[t].id
                &&& self.territories[t].continent_id == other.territories[t].continent_id
                &&& self.territories[t].adjacent_territories
                    == other.territories[t].adjacent_territories
            }
    }
}

/// A prefix of the continents grants no more than all of them.
pub proof fn lemma_bonus_sum_prefix(continents: Seq<ContinentView>, n: int)
    requires
        0 <= n <= continents.len(),
    ensures
        bonus_sum(continents.take(n)) <= bonus_sum(continents),
    decreases continents.len(),
{
    if n == continents.len() {
        assert(continents.take(n) == continents);
    } else {
        lemma_bonus_sum_prefix(continents.drop_last(), n);
        assert(continents.drop_last().take(n) == continents.take(n));
    }
}

/// Being well formed depends on the map alone, not on who holds what.
pub proof fn lemma_same_map_well_formed(before: TerritoryStateView, after: TerritoryStateView)
    requires
        before.same_map(after),
        before.well_formed(),
    ensures
        after.well_formed(),
{
    assert forall|t: int, k: int|
        0 <= t < after.territories.len() && 0 <= k
            < after.territories[t].adjacent_territories.len() implies after.names(
        #[trigger] after.territories[t].adjacent_territories[k],
    ) by {
        assert(before.territories[t].adjacent_territories
            == after.territories[t].adjacent_territories);
        assert(before.names(before.territories[t].adjacent_territories[k]));
    }
}

/// Makes the territory store of the session `game_pubkey` from a map, with
/// `authority` as the credential that may write to it.
pub fn initialize(
    territories: Vec<Territory>,
    continents: Vec<Continent>,
    game_pubkey: Identity,
    authority: Identity,
) -> (territory_state: TerritoryState)
    ensures
        territory_state.territories == territories,
        territory_state.continents == continents,
        territory_state.game == game_pubkey,
        territory_state.authority == authority,
{
    TerritoryState { territories, continents, game: game_pubkey, authority }
}

/// Whether the store is well formed, so that the engine may work on it.
pub fn is_well_formed(territory_state: &TerritoryState) -> (ok: bool)
    ensures
        ok == territory_state@.well_formed(),
{
    let count = territory_state.territories.len();
    let mut t: usize = 0;
    while t < count
        invariant
            t <= count,
            count == territory_state.territories@.len(),
            forall|a: int, k: int|
                0 <= a < t && 0 <= k < territory_state@.territories[a].adjacent_territories.len()
                    ==> territory_state@.names(
                    #[trigger] territory_state@.territories[a].adjacent_territories[k],
                ),
        decreases count - t,
    {
        let neighbours = &territory_state.territories[t].adjacent_territories;
        let mut k: usize = 0;
        while k < neighbours.len()
            invariant
                k <= neighbours@.len(),
                t < count,
                count == territory_state.territories@.len(),
                neighbours@ == territory_state@.territories[t as int].adjacent_territories,
                forall|j: int| 0 <= j < k ==> territory_state@.names(#[trigger] neighbours@[j]),
            decreases neighbours@.len() - k,
        {
            if neighbours[k] as usize >= count {
                proof {
                    assert(!territory_state@.names(
                        territory_state@.territories[t as int].adjacent_territories[k as int],
                    ));
                }
                return false;
            }
            k += 1;
        }
        t += 1;
    }
    let mut bonus: usize = 0;
    let mut c: usize = 0;
    while c < territory_state.continents.len()
        invariant
            c <= territory_state.continents@.len(),
            count == territory_state.territories@.len(),
            bonus == bonus_sum(territory_state@.continents.take(c as int)),
            bonus <= u8::MAX,
            forall|a: int, k: int|
                0 <= a < c && 0 <= k < territory_state@.continents[a].territories.len()
                    ==> territory_state@.names(
                    #[trigger] territory_state@.continents[a].territories[k],
                ),
        decreases territory_state.continents@.len() - c,
    {
        let members = &territory_state.continents[c].territories;
        let mut k: usize = 0;
        while k < members.len()
            invariant
                k <= members@.len(),
                c < territory_state.continents@.len(),
                count == territory_state.territories@.len(),
                members@ == territory_state@.continents[c as int].territories,
                forall|j: int| 0 <= j < k ==> territory_state@.names(#[trigger] members@[j]),
            decreases members@.len() - k,
        {
            if members[k] as usize >= count {
                proof {
                    assert(!territory_state@.names(
                        territory_state@.continents[c as int].territories[k as int],
                    ));
                }
                return false;
            }
            k += 1;
        }
        proof {
            assert(territory_state@.continents.take(c + 1).drop_last()
                == territory_state@.continents.take(c as int));
            lemma_bonus_sum_prefix(territory_state@.continents, c + 1);
        }
        bonus = bonus + territory_state.continents[c].bonus_armies as usize;
        if bonus > 255 {
            return false;
        }
        c += 1;
    }
    proof {
        assert(territory_state@.continents.take(c as int) == territory_state@.continents);
    }
    let base: usize = if count / 3 >= 3 {
        count / 3
    } else {
        3
    };
    base <= 255 - bonus
}

/// Writes one territory: sets its owner and its troops. The write is refused,
/// and the store left as it was, unless `authority` is the store's authority.
/// The credential is looked at before the territory is, so a wrong credential
/// is refused whatever territory is named.
pub fn update_territory(
    territory_state: &mut TerritoryState,
    authority: &Identity,
    territory_id: u8,
    owner: Option<Identity>,
    troops: u8,
) -> (result: Result<(), TerritoryError>)
    requires
        old(territory_state).authority == *authority ==> old(territory_state)@.names(
            territory_id,
        ),
    ensures
        old(territory_state).authority != *authority ==> result == Err::<(), TerritoryError>(
            TerritoryError::InvalidAuthority,
        ) && final(territory_state)@ == old(territory_state)@,
        old(territory_state).authority == *authority ==> result == Ok::<(), TerritoryError>(())
            && final(territory_state)@ == old(territory_state)@.with_territory(
            territory_id,
            owner,
            troops,
        ),
{
    if territory_state.authority != *authority {
        return Err(TerritoryError::InvalidAuthority);
    }
    write_territory(territory_state, territory_id, owner, troops);
    Ok(())
}

/// Sets the owner and the troops of one territory, with no questions asked.
pub(crate) fn write_territory(
    territory_state: &mut TerritoryState,
    territory_id: u8,
    owner: Option<Identity>,
    troops: u8,
)
    requires
        old(territory_state)@.names(territory_id),
    ensures
        final(territory_state)@ == old(territory_state)@.with_territory(
            territory_id,
            owner,
            troops,
        ),
{
    territory_state.territories[territory_id as usize].owner = owner;
    territory_state.territories[territory_id as usize].troops = troops;
    proof {
        assert(territory_state@.territories =~= old(territory_state)@.with_territory(
            territory_id,
            owner,
            troops,
        ).territories);
    }
}

/// The armies granted for holding all of continent `continent_id`.
pub fn get_continent_bonus(territory_state: &TerritoryState, continent_id: u8) -> (bonus: u8)
    requires
        (continent_id as int) < territory_state@.continents.len(),
    ensures
        bonus == territory_state@.continents[continent_id as int].bonus_armies,
{
    territory_state.continents[continent_id as usize].bonus_armies
}

} // verus!

//! Whether troops can march from one territory to another through land that
//! one player holds.

use vstd::prelude::*;
use crate::identity::Identity;
use crate::territory::{TerritoryState, TerritoryStateView};

verus! {

impl TerritoryStateView {
    /// One step of a march: from territory `a` to a neighbour `b` of it that
    /// `owner` holds.
    pub open spec fn step(self, a: u8, b: u8, owner: Identity) -> bool {
        &&& self.names(a)
        &&& self.territories[a as int].adjacent_territories.contains(b)
        &&& self.held_by(b, owner)
    }

    /// Whether `route` leads from `start` to `end` by such steps. The start
    /// itself may be held by anyone.
    pub open spec fn is_route(self, route: Seq<u8>, start: u8, end: u8, owner: Identity) -> bool {
        &&& route.len() >= 1
        &&& route[0] == start
        &&& route.last() == end
        &&& forall|i: int|
            #![trigger route[i]]
            0 <= i < route.len() - 1 ==> self.step(route[i], route[i + 1], owner)
    }

    /// Whether `end` can be reached from `start` through territories that
    /// `owner` holds.
    pub open spec fn connected(self, start: u8, end: u8, owner: Identity) -> bool {
        exists|route: Seq<u8>| self.is_route(route, start, end, owner)
    }
}

/// How many entries of `marks` are still unset.
pub open spec fn unmarked(marks: Seq<bool>) -> nat
    decreases marks.len(),
{
    if marks.len() == 0 {
        0
    } else {
        unmarked(marks.drop_last()) + if marks.last() {
            0nat
        } else {
            1nat
        }
    }
}

/// Setting an unset mark leaves one fewer unset.
proof fn lemma_mark_one(marks: Seq<bool>, at: int)
    requires
        0 <= at < marks.len(),
        !marks[at],
    ensures
        unmarked(marks.update(at, true)) + 1 == unmarked(marks),
    decreases marks.len(),
{
    let after = marks.update(at, true);
    if at == marks.len() - 1 {
        assert(after.drop_last() == marks.drop_last());
    } else {
        lemma_mark_one(marks.drop_last(), at);
        assert(after.drop_last() == marks.drop_last().update(at, true));
    }
}

/// Every territory is connected to itself.
pub proof fn lemma_connected_to_itself(map: TerritoryStateView, start: u8, owner: Identity)
    ensures
        map.connected(start, start, owner),
{
    assert(map.is_route(seq![start], start, start, owner));
}

/// A route can be extended by one more step.
pub proof fn lemma_connected_one_further(
    map: TerritoryStateView,
    start: u8,
    via: u8,
    next: u8,
    owner: Identity,
)
    requires
        map.connected(start, via, owner),
        map.step(via, next, owner),
    ensures
        map.connected(start, next, owner),
{
    let route = choose|route: Seq<u8>| map.is_route(route, start, via, owner);
    let longer = route.push(next);
    assert forall|i: int| #![trigger longer[i]] 0 <= i < longer.len() - 1 implies map.step(
        longer[i],
        longer[i + 1],
        owner,
    ) by {
        if i < route.len() - 1 {
            assert(map.step(route[i], route[i + 1], owner));
        }
    }
    assert(map.is_route(longer, start, next, owner));
}

/// A march that starts on a territory of `owner` ends on one: every step lands
/// on a territory that `owner` holds.
pub proof fn lemma_march_ends_at_home(map: TerritoryStateView, start: u8, end: u8, owner: Identity)
    requires
        map.held_by(start, owner),
        map.connected(start, end, owner),
    ensures
        map.held_by(end, owner),
{
    let route = choose|route: Seq<u8>| map.is_route(route, start, end, owner);
    if route.len() > 1 {
        let before_last = route.len() - 2;
        assert(map.step(route[before_last], route[before_last + 1], owner));
    }
}

/// A set of territories that holds the start, and with each of its territories
/// every neighbour that `owner` holds, holds every stop of a route.
proof fn lemma_route_stays_inside(
    map: TerritoryStateView,
    route: Seq<u8>,
    start: u8,
    end: u8,
    owner: Identity,
    inside: Set<u8>,
    upto: int,
)
    requires
        map.is_route(route, start, end, owner),
        inside.contains(start),
        forall|a: u8, b: u8|
            inside.contains(a) && #[trigger] map.step(a, b, owner) ==> inside.contains(b),
        0 <= upto < route.len(),
    ensures
        inside.contains(route[upto]),
    decreases upto,
{
    if upto > 0 {
        lemma_route_stays_inside(map, route, start, end, owner, inside, upto - 1);
        assert(map.step(route[upto - 1], route[upto - 1 + 1], owner));
    }
}

/// The neighbours that territory `id` lists.
pub open spec fn neighbours(map: TerritoryStateView, id: u8) -> Seq<u8> {
    map.territories[id as int].adjacent_territories
}

/// Whether every road of the map runs both ways: a territory is a neighbour of
/// each of its neighbours.
pub open spec fn roads_run_both_ways(map: TerritoryStateView) -> bool {
    forall|a: u8, b: u8|
        map.names(a) && map.names(b) && #[trigger] neighbours(map, a).contains(b) ==> neighbours(
            map,
            b,
        ).contains(a)
}

/// Whether territory `id` lists `target` among its neighbours.
pub fn lists_neighbour(territory_state: &TerritoryState, id: u8, target: u8) -> (listed: bool)
    requires
        territory_state@.names(id),
    ensures
        listed == neighbours(territory_state@, id).contains(target),
{
    let list = &territory_state.territories[id as usize].adjacent_territories;
    let mut k: usize = 0;
    while k < list.len()
        invariant
            k <= list@.len(),
            list@ == neighbours(territory_state@, id),
            forall|j: int| 0 <= j < k ==> list@[j] != target,
        decreases list@.len() - k,
    {
        if list[k] == target {
            return true;
        }
        k += 1;
    }
    false
}

/// Whether every road of the map runs both ways.
pub fn has_roads_both_ways(territory_state: &TerritoryState) -> (both_ways: bool)
    requires
        territory_state@.neighbours_named(),
    ensures
        both_ways == roads_run_both_ways(territory_state@),
{
    let ghost map = territory_state@;
    let count = territory_state.territories.len();
    let mut a: usize = 0;
    while a < count && a < 256
        invariant
            a <= count,
            a <= 256,
            map == territory_state@,
            map.neighbours_named(),
            count == map.territories.len(),
            forall|from: u8, to: u8|
                from < a && map.names(to) && #[trigger] neighbours(map, from).contains(to)
                    ==> neighbours(map, to).contains(from),
        decreases count - a,
    {
        let list = &territory_state.territories[a].adjacent_territories;
        let mut k: usize = 0;
        while k < list.len()
            invariant
                k <= list@.len(),
                a < count,
                a < 256,
                map == territory_state@,
                map.neighbours_named(),
                count == map.territories.len(),
                list@ == neighbours(map, a as u8),
                forall|j: int|
                    0 <= j < k ==> neighbours(map, #[trigger] list@[j]).contains(a as u8),
            decreases list@.len() - k,
        {
            let to = list[k];
            proof {
                assert(map.names(map.territories[a as int].adjacent_territories[k as int]));
            }
            if !lists_neighbour(territory_state, to, a as u8) {
                proof {
                    assert(neighbours(map, a as u8).contains(to));
                }
                return false;
            }
            k += 1;
        }
        proof {
            assert forall|to: u8|
                map.names(to) && #[trigger] neighbours(map, a as u8).contains(
                    to,
                ) implies neighbours(map, to).contains(a as u8) by {
                let j = choose|j: int| 0 <= j < list@.len() && list@[j] == to;
                assert(neighbours(map, list@[j]).contains(a as u8));
            }
        }
        a += 1;
    }
    true
}

/// What holds while the search is under way. `marks` tells which territories
/// the search has come to, `stack` which of them it has yet to look around
/// from, `done` which it has looked around from, and `current` which it is
/// looking around from now.
///
/// Every marked territory can be reached from `start`, and is on the stack,
/// done, or the current one. The neighbours of a territory that is done are
/// marked if `owner` holds them. The search stops as soon as it takes `end`
/// from the stack, so `end` is never done.
spec fn searching(
    map: TerritoryStateView,
    start: u8,
    end: u8,
    owner: Identity,
    marks: Seq<bool>,
    stack: Seq<u8>,
    done: Set<u8>,
    current: Option<u8>,
) -> bool {
    &&& marks.len() == map.territories.len()
    &&& map.names(start)
    &&& marks[start as int]
    &&& forall|v: u8|
        map.names(v) && #[trigger] marks[v as int] ==> map.connected(start, v, owner)
    &&& forall|k: int|
        0 <= k < stack.len() ==> map.names(#[trigger] stack[k]) && marks[stack[k] as int]
    &&& forall|v: u8|
        map.names(v) && #[trigger] marks[v as int] ==> current == Some(v) || done.contains(v)
            || stack.contains(v)
    &&& forall|v: u8| #[trigger] done.contains(v) ==> map.names(v) && marks[v as int] && v != end
    &&& forall|a: u8, b: u8|
        done.contains(a) && #[trigger] map.step(a, b, owner) ==> marks[b as int]
}

/// Whether `end` can be reached from `start` over territories that `owner`
/// holds, moving from a territory to one of its neighbours at a time. A
/// territory is always connected to itself. The search goes by who holds each
/// territory now.
pub fn are_territories_connected(
    territory_state: &TerritoryState,
    start: u8,
    end: u8,
    owner: &Identity,
) -> (connected: bool)
    requires
        territory_state@.neighbours_named(),
        territory_state@.names(start),
    ensures
        connected == territory_state@.connected(start, end, *owner),
{
    let ghost map = territory_state@;
    let count = territory_state.territories.len();
    let mut visited: Vec<bool> = Vec::new();
    let mut n: usize = 0;
    while n < count
        invariant
            n <= count,
            visited@.len() == n,
            forall|v: int| 0 <= v < n ==> !visited@[v],
            unmarked(visited@) == n,
        decreases count - n,
    {
        proof {
            assert(visited@.push(false).drop_last() == visited@);
        }
        visited.push(false);
        n += 1;
    }
    let mut stack: Vec<u8> = Vec::new();
    stack.push(start);
    let ghost fresh = visited@;
    visited.set(start as usize, true);
    let ghost mut done: Set<u8> = Set::empty();
    proof {
        lemma_mark_one(fresh, start as int);
        lemma_connected_to_itself(map, start, *owner);
        assert(stack@[0] == start);
    }
    while stack.len() > 0
        invariant
            map == territory_state@,
            map.neighbours_named(),
            searching(map, start, end, *owner, visited@, stack@, done, None),
        decreases unmarked(visited@) + stack@.len(),
    {
        let ghost stack_before = stack@;
        let ghost budget = unmarked(visited@) + stack@.len();
        let current = stack.pop().unwrap();
        if current == end {
            return true;
        }
        proof {
            assert forall|v: u8| map.names(v) && #[trigger] visited@[v as int] implies v == current
                || done.contains(v) || stack@.contains(v) by {
                if !done.contains(v) && v != current {
                    assert(stack_before.contains(v));
                    let k = choose|k: int| 0 <= k < stack_before.len() && stack_before[k] == v;
                    assert(stack@[k] == v);
                }
            }
        }
        let neighbours = &territory_state.territories[current as usize].adjacent_territories;
        let mut k: usize = 0;
        while k < neighbours.len()
            invariant
                k <= neighbours@.len(),
                map == territory_state@,
                map.neighbours_named(),
                map.names(current),
                current != end,
                visited@[current as int],
                neighbours@ == map.territories[current as int].adjacent_territories,
                unmarked(visited@) + stack@.len() + 1 == budget,
                searching(map, start, end, *owner, visited@, stack@, done, Some(current)),
                forall|j: int|
                    0 <= j < k && map.held_by(#[trigger] neighbours@[j], *owner)
                        ==> visited@[neighbours@[j] as int],
            decreases neighbours@.len() - k,
        {
            let adj = neighbours[k];
            proof {
                assert(map.names(map.territories[current as int].adjacent_territories[k as int]));
            }
            if !visited[adj as usize] && territory_state.territories[adj as usize].owner == Some(
                *owner,
            ) {
                let ghost marks = visited@;
                let ghost stack_now = stack@;
                visited.set(adj as usize, true);
                stack.push(adj);
                proof {
                    lemma_mark_one(marks, adj as int);
                    assert(neighbours@.contains(adj));
                    assert(map.step(current, adj, *owner));
                    lemma_connected_one_further(map, start, current, adj, *owner);
                    assert(stack@[stack_now.len() as int] == adj);
                    assert forall|v: u8| map.names(v) && #[trigger] visited@[v as int] implies v
                        == current || done.contains(v) || stack@.contains(v) by {
                        if v == adj {
                        } else if v != current && !done.contains(v) {
                            assert(marks[v as int]);
                            assert(stack_now.contains(v));
                            let at = choose|at: int|
                                0 <= at < stack_now.len() && stack_now[at] == v;
                            assert(stack@[at] == v);
                        }
                    }
                }
            }
            k += 1;
        }
        proof {
            assert forall|b: u8| #[trigger] map.step(current, b, *owner) implies visited@[b as int]
            by {
                let j = choose|j: int| 0 <= j < neighbours@.len() && neighbours@[j] == b;
                assert(map.held_by(neighbours@[j], *owner));
            }
            done = done.insert(current);
        }
    }
    proof {
        if map.connected(start, end, *owner) {
            let route = choose|route: Seq<u8>| map.is_route(route, start, end, *owner);
            assert(done.contains(start)) by {
                assert(!stack@.contains(start));
            }
            assert forall|a: u8, b: u8| done.contains(a) && #[trigger] map.step(
                a,
                b,
                *owner,
            ) implies done.contains(b) by {
                assert(visited@[b as int]);
                assert(!stack@.contains(b));
            }
            lemma_route_stays_inside(map, route, start, end, *owner, done, route.len() - 1);
        }
    }
    false
}

} // verus!

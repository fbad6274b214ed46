//! The short game: one record, no phases, no dice and no cards. A move is to
//! place troops or to attack, the stronger side wins an attack outright, and
//! every move ends the turn.

use vstd::prelude::*;
use crate::game::{ErrorCode, GameState};
use crate::identity::Identity;
use crate::setup::{drawn_number, hash_to_index, INITIAL_TROOPS, MAX_PLAYERS};

verus! {

/// One territory of the short game's map, with its name.
#[derive(Clone, Debug, PartialEq, Eq)]
pub struct Territory {
    pub id: u8,
    pub name: String,
    pub owner: Option<Identity>,
    pub troops: u8,
    pub adjacent_territories: Vec<u8>,
}

/// What a `Territory` holds, with its name and its neighbours as sequences.
pub struct TerritoryView {
    pub id: u8,
    pub name: Seq<char>,
    pub owner: Option<Identity>,
    pub troops: u8,
    pub adjacent_territories: Seq<u8>,
}

impl View for Territory {
    type V = TerritoryView;

    open spec fn view(&self) -> TerritoryView {
        TerritoryView {
            id: self.id,
            name: self.name@,
            owner: self.owner,
            troops: self.troops,
            adjacent_territories: self.adjacent_territories@,
        }
    }
}

/// The territories as mathematical values.
pub open spec fn views_of(territories: Seq<Territory>) -> Seq<TerritoryView> {
    territories.map_values(|t: Territory| t@)
}

/// The record of a short game: the players in the order in which they joined,
/// who is to move, and the map.
#[derive(Clone, Debug, PartialEq, Eq)]
pub struct Game {
    pub current_player: Identity,
    pub players: Vec<Identity>,
    pub turn: u8,
    pub state: GameState,
    pub territories: Vec<Territory>,
}

/// The record of a short game as a mathematical value.
pub struct GameView {
    pub current_player: Identity,
    pub players: Seq<Identity>,
    pub turn: u8,
    pub state: GameState,
    pub territories: Seq<TerritoryView>,
}

impl View for Game {
    type V = GameView;

    open spec fn view(&self) -> GameView {
        GameView {
            current_player: self.current_player,
            players: self.players@,
            turn: self.turn,
            state: self.state,
            territories: views_of(self.territories@),
        }
    }
}

/// The position of the first entry at or after `from` that is `who`, or the
/// number of entries if there is none.
pub open spec fn place_from(players: Seq<Identity>, who: Identity, from: int) -> int
    decreases players.len() - from,
{
    if from < 0 || from >= players.len() {
        players.len() as int
    } else if players[from] == who {
        from
    } else {
        place_from(players, who, from + 1)
    }
}

/// The seed of the deal: the bytes of every player's identity, in order.
pub open spec fn seed_of(players: Seq<Identity>) -> Seq<u8>
    decreases players.len(),
{
    if players.len() == 0 {
        Seq::empty()
    } else {
        seed_of(players.drop_last()) + players.last().octets()
    }
}

impl GameView {
    /// Whether `who` has joined the game.
    pub open spec fn has(self, who: Identity) -> bool {
        place_from(self.players, who, 0) < self.players.len()
    }

    /// Whether `id` names a territory of the map.
    pub open spec fn names(self, id: u8) -> bool {
        (id as int) < self.territories.len()
    }

    /// Whether `who` holds territory `id`.
    pub open spec fn held_by(self, id: u8, who: Identity) -> bool {
        self.names(id) && self.territories[id as int].owner == Some(who)
    }

    /// Who moves after the player who is to move now.
    pub open spec fn next_player(self) -> Identity {
        self.players[(place_from(self.players, self.current_player, 0) + 1) % (
        self.players.len() as int)]
    }

    /// The game after the turn passed on.
    pub open spec fn turn_passed(self) -> Self {
        GameView { current_player: self.next_player(), turn: (self.turn + 1) as u8, ..self }
    }

    /// The game with the owner and the troops of territory `id` replaced.
    pub open spec fn with_territory(self, id: u8, owner: Option<Identity>, troops: u8) -> Self {
        GameView {
            territories: self.territories.update(
                id as int,
                TerritoryView { owner, troops, ..self.territories[id as int] },
            ),
            ..self
        }
    }

    /// Whether every territory has the holder that the first one has, be that
    /// a player or nobody.
    pub open spec fn decided(self) -> bool {
        forall|t: int|
            0 <= t < self.territories.len() ==> (#[trigger] self.territories[t]).owner
                == self.territories[0].owner
    }

    /// The game after a look at the map: once the map is decided the game is
    /// completed, and the holder of the map, if it has one, is the player to
    /// move.
    pub open spec fn judged(self) -> Self {
        if self.decided() {
            GameView {
                state: GameState::Completed,
                current_player: match self.territories[0].owner {
                    Some(winner) => winner,
                    None => self.current_player,
                },
                ..self
            }
        } else {
            self
        }
    }

    /// The territory at `position` as it is dealt.
    pub open spec fn dealt_territory(self, position: int) -> TerritoryView {
        TerritoryView {
            owner: Some(
                self.players[drawn_number(seed_of(self.players), position as u64) as int % (
                self.players.len() as int)],
            ),
            troops: INITIAL_TROOPS,
            ..self.territories[position]
        }
    }

    /// The game after the first `dealt` territories were dealt.
    pub open spec fn dealt_upto(self, dealt: int) -> Self {
        GameView {
            territories: Seq::new(
                self.territories.len(),
                |t: int|
                    if t < dealt {
                        self.dealt_territory(t)
                    } else {
                        self.territories[t]
                    },
            ),
            ..self
        }
    }

    /// The game after every territory was dealt.
    pub open spec fn dealt(self) -> Self {
        self.dealt_upto(self.territories.len() as int)
    }
}

/// The names of the six territories of the fixed map, by position.
pub open spec fn fixed_names() -> Seq<Seq<char>> {
    seq![
        "North America"@,
        "South America"@,
        "Africa"@,
        "Europe"@,
        "Asia"@,
        "Australia"@,
    ]
}

/// The neighbours of each territory of the fixed map, by position. Every road
/// is listed at both of its ends.
pub open spec fn fixed_neighbours() -> Seq<Seq<u8>> {
    seq![
        seq![1u8, 3u8],
        seq![0u8, 2u8],
        seq![1u8, 3u8, 4u8],
        seq![0u8, 2u8, 4u8],
        seq![2u8, 3u8, 5u8],
        seq![4u8],
    ]
}

/// The territory at `position` of the fixed map: held by nobody, empty of
/// troops.
pub open spec fn fixed_territory(position: int) -> TerritoryView {
    TerritoryView {
        id: position as u8,
        name: fixed_names()[position],
        owner: None,
        troops: 0,
        adjacent_territories: fixed_neighbours()[position],
    }
}

/// The fixed map: six territories named by their position.
pub open spec fn fixed_map() -> Seq<TerritoryView> {
    Seq::new(6, |position: int| fixed_territory(position))
}

/// The neighbours that the territory at position `id` lists.
pub open spec fn neighbours(territories: Seq<TerritoryView>, id: u8) -> Seq<u8> {
    territories[id as int].adjacent_territories
}

/// Whether every neighbour that a territory lists is another territory of the
/// map.
pub open spec fn roads_lead_elsewhere(territories: Seq<TerritoryView>) -> bool {
    forall|a: u8, b: u8|
        a < territories.len() && #[trigger] neighbours(territories, a).contains(b) ==> b
            < territories.len() && b != a
}

/// Whether every road runs both ways: a territory is a neighbour of each of its
/// neighbours.
pub open spec fn roads_run_both_ways(territories: Seq<TerritoryView>) -> bool {
    forall|a: u8, b: u8|
        a < territories.len() && b < territories.len() && #[trigger] neighbours(
            territories,
            a,
        ).contains(b) ==> neighbours(territories, b).contains(a)
}

/// On the fixed map every road leads to another of the six territories, and
/// runs both ways.
pub proof fn lemma_fixed_roads()
    ensures
        roads_lead_elsewhere(fixed_map()),
        roads_run_both_ways(fixed_map()),
{
    let map = fixed_map();
    let roads = fixed_neighbours();
    assert forall|a: u8, b: u8| a < map.len() && #[trigger] neighbours(map, a).contains(
        b,
    ) implies b < map.len() && b != a && neighbours(map, b).contains(a) by {
        let list = neighbours(map, a);
        assert(list == roads[a as int]);
        let k = choose|k: int| 0 <= k < list.len() && list[k] == b;
        assert(neighbours(map, b) == roads[b as int]);
        if a == 0 {
            if k == 0 {
                assert(roads[1][0] == 0);
            } else {
                assert(roads[3][0] == 0);
            }
        } else if a == 1 {
            if k == 0 {
                assert(roads[0][0] == 1);
            } else {
                assert(roads[2][0] == 1);
            }
        } else if a == 2 {
            if k == 0 {
                assert(roads[1][1] == 2);
            } else if k == 1 {
                assert(roads[3][1] == 2);
            } else {
                assert(roads[4][0] == 2);
            }
        } else if a == 3 {
            if k == 0 {
                assert(roads[0][1] == 3);
            } else if k == 1 {
                assert(roads[2][1] == 3);
            } else {
                assert(roads[4][1] == 3);
            }
        } else if a == 4 {
            if k == 0 {
                assert(roads[2][2] == 4);
            } else if k == 1 {
                assert(roads[3][2] == 4);
            } else {
                assert(roads[5][0] == 4);
            }
        } else {
            assert(roads[4][2] == 5);
        }
    }
}

/// One territory held by nobody and empty of troops.
fn unclaimed(id: u8, name: &str, adjacent_territories: Vec<u8>) -> (territory: Territory)
    ensures
        territory@ == (TerritoryView {
            id,
            name: name@,
            owner: None,
            troops: 0,
            adjacent_territories: adjacent_territories@,
        }),
{
    Territory { id, name: name.to_owned(), owner: None, troops: 0, adjacent_territories }
}

/// The territories of the fixed map, on which a short game is played. Every
/// road of it leads to another of its six territories and runs both ways.
pub fn initialize_territories() -> (territories: Vec<Territory>)
    ensures
        territories@.len() == 6,
        forall|t: int| 0 <= t < 6 ==> (#[trigger] territories@[t])@ == fixed_territory(t),
        views_of(territories@) == fixed_map(),
        roads_lead_elsewhere(views_of(territories@)),
        roads_run_both_ways(views_of(territories@)),
{
    let territories = vec![
        unclaimed(0, "North America", vec![1, 3]),
        unclaimed(1, "South America", vec![0, 2]),
        unclaimed(2, "Africa", vec![1, 3, 4]),
        unclaimed(3, "Europe", vec![0, 2, 4]),
        unclaimed(4, "Asia", vec![2, 3, 5]),
        unclaimed(5, "Australia", vec![4]),
    ];
    proof {
        assert forall|t: int| 0 <= t < 6 implies (#[trigger] territories@[t])@ == fixed_territory(
            t,
        ) by {
            assert(territories@[t]@.adjacent_territories =~= fixed_neighbours()[t]);
        }
        assert(views_of(territories@) =~= fixed_map());
        lemma_fixed_roads();
    }
    territories
}

/// Starts a short game on the fixed map. Nobody has joined yet, and `creator`
/// is the first to move.
pub fn initialize_game(creator: Identity) -> (game: Game)
    ensures
        game.current_player == creator,
        game@.players == Seq::<Identity>::empty(),
        game.turn == 1,
        game.state == GameState::Setup,
        game@.territories == fixed_map(),
        game@.territories.len() == 6,
        roads_lead_elsewhere(game@.territories),
        roads_run_both_ways(game@.territories),
{
    proof {
        lemma_fixed_roads();
    }
    Game {
        current_player: creator,
        players: Vec::new(),
        turn: 1,
        state: GameState::Setup,
        territories: initialize_territories(),
    }
}

/// The position of `who` among the players, if `who` has joined.
pub fn find_place(players: &Vec<Identity>, who: &Identity) -> (place: Option<usize>)
    ensures
        match place {
            Some(at) => at < players@.len() && at == place_from(players@, *who, 0),
            None => place_from(players@, *who, 0) >= players@.len(),
        },
{
    let mut i: usize = 0;
    while i < players.len()
        invariant
            i <= players@.len(),
            place_from(players@, *who, 0) == place_from(players@, *who, i as int),
        decreases players@.len() - i,
    {
        if players[i] == *who {
            return Some(i);
        }
        i += 1;
    }
    None
}

/// Deals every territory to one of the players, drawn from the identities of
/// all players and the territory's position, and puts three troops on it.
pub fn distribute_territories(game: &mut Game)
    requires
        old(game)@.players.len() > 0,
    ensures
        final(game)@ == old(game)@.dealt(),
{
    let mut seed: Vec<u8> = Vec::new();
    let ghost before = game@;
    let mut i: usize = 0;
    while i < game.players.len()
        invariant
            i <= before.players.len(),
            game@ == before,
            seed@ == seed_of(before.players.take(i as int)),
        decreases before.players.len() - i,
    {
        proof {
            assert(before.players.take(i + 1).drop_last() == before.players.take(i as int));
        }
        game.players[i].append_to(&mut seed);
        i += 1;
    }
    proof {
        assert(before.players.take(before.players.len() as int) == before.players);
        assert(before.dealt_upto(0).territories == before.territories);
    }
    let player_count = game.players.len();
    let count = game.territories.len();
    let mut t: usize = 0;
    while t < count
        invariant
            t <= count,
            count == before.territories.len(),
            player_count == before.players.len(),
            player_count > 0,
            seed@ == seed_of(before.players),
            game@ == before.dealt_upto(t as int),
        decreases count - t,
    {
        let drawn = hash_to_index(seed.as_slice(), t as u64);
        let place = (drawn % (player_count as u64)) as usize;
        let owner = game.players[place];
        let ghost earlier = game@;
        proof {
            assert(game.territories@.len() == earlier.territories.len());
            assert(earlier.territories.len() == count);
            assert(owner == before.dealt_territory(t as int).owner->0);
        }
        game.territories[t].owner = Some(owner);
        game.territories[t].troops = INITIAL_TROOPS;
        proof {
            let later = before.dealt_upto(t + 1);
            assert forall|a: int| 0 <= a < count implies game@.territories[a]
                == later.territories[a] by {
                if a != t {
                    assert(game@.territories[a] == earlier.territories[a]);
                } else {
                    assert(earlier.territories[a] == before.territories[a]);
                }
            }
            assert(game@.territories =~= later.territories);
        }
        t += 1;
    }
}

/// Why a player cannot join, if so: the game must be in setup and have room.
pub open spec fn join_refusal(game: GameView) -> Option<ErrorCode> {
    if game.state != GameState::Setup {
        Some(ErrorCode::GameAlreadyStarted)
    } else if game.players.len() >= MAX_PLAYERS {
        Some(ErrorCode::MaxPlayersReached)
    } else {
        None
    }
}

/// The game after `player` joined: with the second player the game starts, and
/// the territories are dealt.
pub open spec fn after_join(game: GameView, player: Identity) -> GameView {
    let joined = GameView { players: game.players.push(player), ..game };
    if joined.players.len() >= 2 {
        (GameView { state: GameState::InProgress, ..joined }).dealt()
    } else {
        joined
    }
}

/// Adds `player` to the game. The game starts as soon as it has two players,
/// and the territories are dealt at that moment. A refused call changes
/// nothing.
pub fn join_game(game: &mut Game, player: Identity) -> (result: Result<(), ErrorCode>)
    ensures
        match join_refusal(old(game)@) {
            Some(refusal) => result == Err::<(), ErrorCode>(refusal) && final(game)@ == old(game)@,
            None => result == Ok::<(), ErrorCode>(()) && final(game)@ == after_join(
                old(game)@,
                player,
            ),
        },
{
    if game.state != GameState::Setup {
        return Err(ErrorCode::GameAlreadyStarted);
    }
    if game.players.len() >= MAX_PLAYERS {
        return Err(ErrorCode::MaxPlayersReached);
    }
    game.players.push(player);
    if game.players.len() >= 2 {
        game.state = GameState::InProgress;
        distribute_territories(game);
    }
    Ok(())
}

/// Passes the turn to the player after the current one and counts the turn.
pub fn next_turn(game: &mut Game)
    requires
        old(game)@.has(old(game).current_player),
        old(game).turn < u8::MAX,
    ensures
        final(game)@ == old(game)@.turn_passed(),
{
    let place = find_place(&game.players, &game.current_player).unwrap();
    let count = game.players.len();
    let next: usize = if place + 1 == count {
        0
    } else {
        place + 1
    };
    proof {
        let len = count as int;
        assert((place + 1) % len == next) by (nonlinear_arith)
            requires
                0 <= place < len,
                next == if place + 1 == len {
                    0
                } else {
                    place + 1
                },
        ;
    }
    game.current_player = game.players[next];
    game.turn = game.turn + 1;
}

/// Completes the game if every territory has the same holder as the first, and
/// then makes the holder, if there is one, the player to move.
pub fn check_victory_condition(game: &mut Game)
    requires
        old(game)@.territories.len() > 0,
    ensures
        final(game)@ == old(game)@.judged(),
{
    let first_owner = game.territories[0].owner;
    let count = game.territories.len();
    let mut t: usize = 1;
    while t < count
        invariant
            1 <= t <= count,
            game@ == old(game)@,
            count == game@.territories.len(),
            first_owner == game@.territories[0].owner,
            forall|a: int| 0 <= a < t ==> (#[trigger] game@.territories[a]).owner == first_owner,
        decreases count - t,
    {
        if game.territories[t].owner != first_owner {
            proof {
                assert(game@.territories[t as int].owner != game@.territories[0].owner);
            }
            return ;
        }
        t += 1;
    }
    game.state = GameState::Completed;
    match first_owner {
        Some(winner) => {
            game.current_player = winner;
        },
        None => {},
    }
}

/// Why a move is refused before the move itself is looked at: the game must be
/// in progress, and it must be the player's turn.
pub open spec fn move_refusal(game: GameView, player: Identity) -> Option<ErrorCode> {
    if game.state != GameState::InProgress {
        Some(ErrorCode::GameNotInProgress)
    } else if game.current_player != player {
        Some(ErrorCode::NotPlayerTurn)
    } else {
        None
    }
}

/// Why troops cannot be placed, if so: the move must be in order, the player
/// must hold the territory, and the player must have joined the game, or the
/// turn could not pass on. A territory that is not on the map is held by
/// nobody.
pub open spec fn place_refusal(
    game: GameView,
    player: Identity,
    territory_id: u8,
) -> Option<ErrorCode> {
    if move_refusal(game, player) is Some {
        move_refusal(game, player)
    } else if !game.held_by(territory_id, player) {
        Some(ErrorCode::NotTerritoryOwner)
    } else if !game.has(player) {
        Some(ErrorCode::PlayerNotFound)
    } else {
        None
    }
}

/// The game after `troops` troops were placed on territory `territory_id`: the
/// territory has them, and the turn has passed on.
pub open spec fn after_place(game: GameView, territory_id: u8, troops: u8) -> GameView {
    game.with_territory(
        territory_id,
        game.territories[territory_id as int].owner,
        (game.territories[territory_id as int].troops + troops) as u8,
    ).turn_passed()
}

/// Places `troops` troops on a territory of `player` and ends the turn. A
/// refused move changes nothing.
pub fn place_troops(
    game: &mut Game,
    player: &Identity,
    territory_id: u8,
    troops: u8,
) -> (result: Result<(), ErrorCode>)
    requires
        place_refusal(old(game)@, *player, territory_id) is None ==> {
            &&& old(game)@.territories[territory_id as int].troops + troops <= u8::MAX
            &&& old(game).turn < u8::MAX
        },
    ensures
        match place_refusal(old(game)@, *player, territory_id) {
            Some(refusal) => result == Err::<(), ErrorCode>(refusal) && final(game)@ == old(game)@,
            None => result == Ok::<(), ErrorCode>(()) && final(game)@ == after_place(
                old(game)@,
                territory_id,
                troops,
            ),
        },
{
    if game.state != GameState::InProgress {
        return Err(ErrorCode::GameNotInProgress);
    }
    if game.current_player != *player {
        return Err(ErrorCode::NotPlayerTurn);
    }
    if territory_id as usize >= game.territories.len()
        || game.territories[territory_id as usize].owner != Some(*player) {
        return Err(ErrorCode::NotTerritoryOwner);
    }
    if find_place(&game.players, player).is_none() {
        return Err(ErrorCode::PlayerNotFound);
    }
    let standing = game.territories[territory_id as usize].troops;
    game.territories[territory_id as usize].troops = standing + troops;
    proof {
        assert(game@.territories =~= old(game)@.with_territory(
            territory_id,
            old(game)@.territories[territory_id as int].owner,
            (standing + troops) as u8,
        ).territories);
    }
    next_turn(game);
    Ok(())
}

/// Why an attack is refused, if it is: the move must be in order, the player
/// must hold `from` with more troops on it than attack, `to` must be a
/// territory of the map with another holder, and the player must have joined
/// the game, or the turn could not pass on.
pub open spec fn attack_refusal(
    game: GameView,
    player: Identity,
    from: u8,
    to: u8,
    attacking_troops: u8,
) -> Option<ErrorCode> {
    if move_refusal(game, player) is Some {
        move_refusal(game, player)
    } else if !game.held_by(from, player) {
        Some(ErrorCode::NotTerritoryOwner)
    } else if game.territories[from as int].troops <= attacking_troops {
        Some(ErrorCode::InsufficientTroops)
    } else if !game.names(to) {
        Some(ErrorCode::NotTerritoryOwner)
    } else if game.territories[from as int].owner == game.territories[to as int].owner {
        Some(ErrorCode::CannotAttackOwnTerritory)
    } else if !game.has(player) {
        Some(ErrorCode::PlayerNotFound)
    } else {
        None
    }
}

/// The map after the attack. The attacking troops leave `from`. If they are
/// more than the troops on `to`, the territory goes to the attacker with as
/// many troops as the attackers outnumbered the defenders by.
pub open spec fn after_battle(
    game: GameView,
    player: Identity,
    from: u8,
    to: u8,
    attacking_troops: u8,
) -> GameView {
    let defending_troops = game.territories[to as int].troops;
    let left = game.with_territory(
        from,
        game.territories[from as int].owner,
        (game.territories[from as int].troops - attacking_troops) as u8,
    );
    if attacking_troops > defending_troops {
        left.with_territory(to, Some(player), (attacking_troops - defending_troops) as u8)
    } else {
        left
    }
}

/// The game after the attack: the battle is fought, the map is judged, and the
/// turn passes on.
pub open spec fn after_attack(
    game: GameView,
    player: Identity,
    from: u8,
    to: u8,
    attacking_troops: u8,
) -> GameView {
    after_battle(game, player, from, to, attacking_troops).judged().turn_passed()
}

/// Attacks `to_territory` from `from_territory` with `attacking_troops` troops
/// and ends the turn. The attacking troops are spent; they take the territory
/// if they outnumber its defenders. The game is completed once the whole map
/// has one holder. A refused move changes nothing.
pub fn attack_territory(
    game: &mut Game,
    player: &Identity,
    from_territory: u8,
    to_territory: u8,
    attacking_troops: u8,
) -> (result: Result<(), ErrorCode>)
    requires
        attack_refusal(old(game)@, *player, from_territory, to_territory, attacking_troops)
            is None ==> old(game).turn < u8::MAX,
    ensures
        match attack_refusal(
            old(game)@,
            *player,
            from_territory,
            to_territory,
            attacking_troops,
        ) {
            Some(refusal) => result == Err::<(), ErrorCode>(refusal) && final(game)@ == old(game)@,
            None => result == Ok::<(), ErrorCode>(()) && final(game)@ == after_attack(
                old(game)@,
                *player,
                from_territory,
                to_territory,
                attacking_troops,
            ),
        },
{
    if game.state != GameState::InProgress {
        return Err(ErrorCode::GameNotInProgress);
    }
    if game.current_player != *player {
        return Err(ErrorCode::NotPlayerTurn);
    }
    if from_territory as usize >= game.territories.len()
        || game.territories[from_territory as usize].owner != Some(*player) {
        return Err(ErrorCode::NotTerritoryOwner);
    }
    let from_owner = game.territories[from_territory as usize].owner;
    let standing = game.territories[from_territory as usize].troops;
    if standing <= attacking_troops {
        return Err(ErrorCode::InsufficientTroops);
    }
    if to_territory as usize >= game.territories.len() {
        return Err(ErrorCode::NotTerritoryOwner);
    }
    if from_owner == game.territories[to_territory as usize].owner {
        return Err(ErrorCode::CannotAttackOwnTerritory);
    }
    if find_place(&game.players, player).is_none() {
        return Err(ErrorCode::PlayerNotFound);
    }
    let defending_troops = game.territories[to_territory as usize].troops;
    let ghost before = game@;
    game.territories[from_territory as usize].troops = standing - attacking_troops;
    proof {
        assert(game@.territories =~= before.with_territory(
            from_territory,
            before.territories[from_territory as int].owner,
            (standing - attacking_troops) as u8,
        ).territories);
    }
    if attacking_troops > defending_troops {
        let ghost left = game@;
        game.territories[to_territory as usize].owner = Some(*player);
        game.territories[to_territory as usize].troops = attacking_troops - defending_troops;
        proof {
            assert(game@.territories =~= left.with_territory(
                to_territory,
                Some(*player),
                (attacking_troops - defending_troops) as u8,
            ).territories);
        }
    }
    let ghost fought = game@;
    check_victory_condition(game);
    proof {
        // the attacker still holds the territory attacked from, so a map that
        // is decided is the attacker's
        assert(fought.territories[from_territory as int].owner == Some(*player));
        if fought.decided() {
            assert(fought.territories[0].owner == Some(*player));
        }
    }
    next_turn(game);
    Ok(())
}

} // verus!

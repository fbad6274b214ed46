//! Setting a game up: creating it, joining it, and dealing out the territories.

use std::collections::hash_map::DefaultHasher;
use std::hash::Hasher;
use vstd::bytes::{spec_u64_to_le_bytes, u64_to_le_bytes};
use vstd::prelude::*;
use vstd::std_specs::hash::DefaultHasherAdditionalSpecFns;
use crate::game::{
    check_victory_condition,
    color_from_lowercase,
    color_named,
    from_player_error,
    ErrorCode,
    Game,
    GameState,
    GameView,
    TurnPhase,
};
use crate::identity::Identity;
use crate::player::{add_player, Player, PlayerColor, PlayerState, PlayerStateView, PlayerView};
use crate::territory::{
    Continent,
    Territory,
    TerritoryState,
    TerritoryStateView,
    TerritoryView,
};

verus! {

/// The most players a game can have.
pub const MAX_PLAYERS: usize = 6;

/// The troops that every territory starts with.
pub const INITIAL_TROOPS: u8 = 3;

/// The identities under which a new game is set up: those of the session and
/// of its two stores, the player who creates it, and the credential that may
/// write to the stores.
#[derive(Clone, Copy, Debug)]
pub struct InitializeGame {
    pub game: Identity,
    pub territory_account: Identity,
    pub player_account: Identity,
    pub creator: Identity,
    pub authority: Identity,
}

/// What `str::to_lowercase` of the standard library makes of a text.
pub uninterp spec fn lowercase(text: Seq<char>) -> Seq<char>;

/// Calls `str::to_lowercase` of the standard library, which returns the text
/// with every character replaced by its lower-case form. The contract only
/// gives the result its name: it is a function of the text alone.
#[verifier::external_body]
fn to_lowercase(text: &str) -> (lowered: String)
    ensures
        lowered@ == lowercase(text@),
{
    text.to_lowercase()
}

/// The colour that `color` names, whatever the case of its letters.
pub fn string_to_color(color: &str) -> (result: Result<PlayerColor, ErrorCode>)
    ensures
        match color_named(lowercase(color@)) {
            Some(named) => result == Ok::<PlayerColor, ErrorCode>(named),
            None => result == Err::<PlayerColor, ErrorCode>(ErrorCode::InvalidColor),
        },
{
    let lowered = to_lowercase(color);
    color_from_lowercase(&lowered)
}

/// The session that `accounts.creator` creates: in setup, with the creator
/// first to play, at turn one, in the reinforcement phase.
pub open spec fn new_game(accounts: InitializeGame) -> GameView {
    GameView {
        key: accounts.game,
        current_player: accounts.creator,
        turn: 1,
        state: GameState::Setup,
        current_phase: TurnPhase::Reinforcement,
        cards_sets_turned_in: 0,
        last_attack_dice: None,
        pending_reinforcements: None,
        territory_account: accounts.territory_account,
        player_account: accounts.player_account,
    }
}

/// A player who has just joined: with an empty hand and no conquest.
pub open spec fn new_player(who: Identity, color: PlayerColor) -> PlayerView {
    PlayerView { pubkey: who, color, cards: Seq::empty(), conquered_territory_this_turn: false }
}

/// Creates a game: the session, the territory store with the given map, and
/// the roster with the creator, in the colour `color`, as its only member.
pub fn create_game(
    accounts: InitializeGame,
    color: PlayerColor,
    territories: Vec<Territory>,
    continents: Vec<Continent>,
) -> (created: (Game, TerritoryState, PlayerState))
    ensures
        created.0@ == new_game(accounts),
        created.1.territories == territories,
        created.1.continents == continents,
        created.1.game == accounts.game,
        created.1.authority == accounts.authority,
        created.2@.players == seq![new_player(accounts.creator, color)],
        created.2.game == accounts.game,
        created.2.authority == accounts.authority,
{
    let game = Game {
        key: accounts.game,
        current_player: accounts.creator,
        turn: 1,
        state: GameState::Setup,
        current_phase: TurnPhase::Reinforcement,
        cards_sets_turned_in: 0,
        last_attack_dice: None,
        pending_reinforcements: None,
        territory_account: accounts.territory_account,
        player_account: accounts.player_account,
    };
    let territory_state = crate::territory::initialize(
        territories,
        continents,
        accounts.game,
        accounts.authority,
    );
    let creator = Player {
        pubkey: accounts.creator,
        color,
        cards: Vec::new(),
        conquered_territory_this_turn: false,
    };
    let player_state = crate::player::initialize(accounts.game, creator, accounts.authority);
    (game, territory_state, player_state)
}

/// Creates a game as `create_game` does, with the creator's colour given by
/// name. A name that is none of the six colours is refused.
pub fn initialize_game(
    accounts: InitializeGame,
    color: &str,
    territories: Vec<Territory>,
    continents: Vec<Continent>,
) -> (result: Result<(Game, TerritoryState, PlayerState), ErrorCode>)
    ensures
        match color_named(lowercase(color@)) {
            Some(named) => {
                &&& result matches Ok(created)
                &&& created.0@ == new_game(accounts)
                &&& created.1.territories == territories
                &&& created.1.continents == continents
                &&& created.1.game == accounts.game
                &&& created.1.authority == accounts.authority
                &&& created.2@.players == seq![new_player(accounts.creator, named)]
                &&& created.2.game == accounts.game
                &&& created.2.authority == accounts.authority
            },
            None => result matches Err(refusal) && refusal == ErrorCode::InvalidColor,
        },
{
    match string_to_color(color) {
        Ok(named) => Ok(create_game(accounts, named, territories, continents)),
        Err(refusal) => Err(refusal),
    }
}

/// Whether the game starts when one more player joins this roster: it starts
/// with its second player.
pub open spec fn join_starts_game(roster: PlayerStateView) -> bool {
    roster.players.len() + 1 >= 2
}

/// Why a player cannot join in the colour `color`, if so. The session must be
/// in setup and the roster must have room; then the colour must be free; then
/// the credential for the roster is looked at, and, where the join starts the
/// game and the territories are dealt, the credential for the territory store.
pub open spec fn join_refusal(
    game: GameView,
    map: TerritoryStateView,
    roster: PlayerStateView,
    authority: Identity,
    color: PlayerColor,
) -> Option<ErrorCode> {
    if game.state != GameState::Setup {
        Some(ErrorCode::GameAlreadyStarted)
    } else if roster.players.len() >= MAX_PLAYERS {
        Some(ErrorCode::MaxPlayersReached)
    } else if roster.color_taken(color) {
        Some(ErrorCode::ColorAlreadyTaken)
    } else if roster.authority != authority {
        Some(ErrorCode::InvalidAuthority)
    } else if join_starts_game(roster) && map.authority != authority {
        Some(ErrorCode::InvalidAuthority)
    } else {
        None
    }
}

/// Why a player cannot join under the colour name `color`, if so: as
/// `join_refusal`, with a name that is no colour refused once the session and
/// the roster have been looked at.
pub open spec fn join_by_name_refusal(
    game: GameView,
    map: TerritoryStateView,
    roster: PlayerStateView,
    authority: Identity,
    color: Seq<char>,
) -> Option<ErrorCode> {
    if game.state != GameState::Setup {
        Some(ErrorCode::GameAlreadyStarted)
    } else if roster.players.len() >= MAX_PLAYERS {
        Some(ErrorCode::MaxPlayersReached)
    } else {
        match color_named(lowercase(color)) {
            Some(named) => join_refusal(game, map, roster, authority, named),
            None => Some(ErrorCode::InvalidColor),
        }
    }
}

/// The territory store after `player` joined: if the join starts the game,
/// every territory is dealt to a player of the roster as it then stands;
/// otherwise the store is as it was.
pub open spec fn map_after_join(
    map: TerritoryStateView,
    roster: PlayerStateView,
    player: PlayerView,
) -> TerritoryStateView {
    if join_starts_game(roster) {
        map_after_distribution(map, roster.with_player(player))
    } else {
        map
    }
}

/// The session after a player joined a roster that had `members` players: it
/// is in progress once there are two. The deal at the start of a game is not
/// judged for a winner; play decides that.
pub open spec fn game_after_join(game: GameView, members: nat) -> GameView {
    GameView {
        state: if members + 1 >= 2 {
            GameState::InProgress
        } else {
            game.state
        },
        ..game
    }
}

/// Whether some player on the roster has the colour `color`.
pub fn is_color_taken(player_state: &PlayerState, color: PlayerColor) -> (taken: bool)
    ensures
        taken == player_state@.color_taken(color),
{
    let mut i: usize = 0;
    while i < player_state.players.len()
        invariant
            i <= player_state.players@.len(),
            forall|j: int| 0 <= j < i ==> (#[trigger] player_state@.players[j]).color != color,
        decreases player_state.players@.len() - i,
    {
        if player_state.players[i].color == color {
            proof {
                assert(player_state@.players[i as int].color == color);
            }
            return true;
        }
        i += 1;
    }
    false
}

/// Adds `player` to the game in the colour `color`, writing to the stores
/// under the credential `authority`. The game starts as soon as it has two
/// players, and at that moment the territories are dealt: each goes to a
/// player of the roster and starts with three troops. A refused call changes
/// nothing.
pub fn join_with_color(
    game: &mut Game,
    territory_state: &mut TerritoryState,
    player_state: &mut PlayerState,
    authority: &Identity,
    player: Identity,
    color: PlayerColor,
) -> (result: Result<(), ErrorCode>)
    requires
        old(game)@.holds_map(old(territory_state)@),
        old(game)@.holds_roster(old(player_state)@),
    ensures
        match join_refusal(
            old(game)@,
            old(territory_state)@,
            old(player_state)@,
            *authority,
            color,
        ) {
            Some(refusal) => {
                &&& result == Err::<(), ErrorCode>(refusal)
                &&& final(game)@ == old(game)@
                &&& final(territory_state)@ == old(territory_state)@
                &&& final(player_state)@ == old(player_state)@
            },
            None => {
                &&& result == Ok::<(), ErrorCode>(())
                &&& final(player_state)@ == old(player_state)@.with_player(
                    new_player(player, color),
                )
                &&& final(territory_state)@ == map_after_join(
                    old(territory_state)@,
                    old(player_state)@,
                    new_player(player, color),
                )
                &&& final(game)@ == game_after_join(
                    old(game)@,
                    old(player_state)@.players.len(),
                )
                &&& old(territory_state)@.same_map(final(territory_state)@)
                &&& join_starts_game(old(player_state)@) ==> final(game).state
                    == GameState::InProgress && dealt_out(
                    final(territory_state)@,
                    final(player_state)@,
                )
            },
        },
{
    if game.state != GameState::Setup {
        return Err(ErrorCode::GameAlreadyStarted);
    }
    if player_state.players.len() >= MAX_PLAYERS {
        return Err(ErrorCode::MaxPlayersReached);
    }
    if is_color_taken(player_state, color) {
        return Err(ErrorCode::ColorAlreadyTaken);
    }
    if player_state.authority != *authority {
        return Err(ErrorCode::InvalidAuthority);
    }
    let starts = player_state.players.len() + 1 >= 2;
    if starts && territory_state.authority != *authority {
        return Err(ErrorCode::InvalidAuthority);
    }
    let joining = Player {
        pubkey: player,
        color,
        cards: Vec::new(),
        conquered_territory_this_turn: false,
    };
    match add_player(player_state, authority, joining) {
        Err(refusal) => {
            return Err(from_player_error(refusal));
        },
        Ok(()) => {},
    }
    if starts {
        game.state = GameState::InProgress;
        match distribute_territories(territory_state, player_state, authority) {
            Err(refusal) => {
                return Err(refusal);
            },
            Ok(()) => {},
        }
    }
    Ok(())
}

/// Adds `player` to the game as `join_with_color` does, with the colour given
/// by name.
pub fn join_game(
    game: &mut Game,
    territory_state: &mut TerritoryState,
    player_state: &mut PlayerState,
    authority: &Identity,
    player: Identity,
    color: &str,
) -> (result: Result<(), ErrorCode>)
    requires
        old(game)@.holds_map(old(territory_state)@),
        old(game)@.holds_roster(old(player_state)@),
    ensures
        match join_by_name_refusal(
            old(game)@,
            old(territory_state)@,
            old(player_state)@,
            *authority,
            color@,
        ) {
            Some(refusal) => {
                &&& result == Err::<(), ErrorCode>(refusal)
                &&& final(game)@ == old(game)@
                &&& final(territory_state)@ == old(territory_state)@
                &&& final(player_state)@ == old(player_state)@
            },
            None => {
                &&& result == Ok::<(), ErrorCode>(())
                &&& final(player_state)@ == old(player_state)@.with_player(
                    new_player(player, color_named(lowercase(color@))->0),
                )
                &&& final(territory_state)@ == map_after_join(
                    old(territory_state)@,
                    old(player_state)@,
                    new_player(player, color_named(lowercase(color@))->0),
                )
                &&& final(game)@ == game_after_join(
                    old(game)@,
                    old(player_state)@.players.len(),
                )
                &&& old(territory_state)@.same_map(final(territory_state)@)
                &&& join_starts_game(old(player_state)@) ==> final(game).state
                    == GameState::InProgress && dealt_out(
                    final(territory_state)@,
                    final(player_state)@,
                )
            },
        },
{
    if game.state != GameState::Setup {
        return Err(ErrorCode::GameAlreadyStarted);
    }
    if player_state.players.len() >= MAX_PLAYERS {
        return Err(ErrorCode::MaxPlayersReached);
    }
    match string_to_color(color) {
        Ok(named) => join_with_color(
            game,
            territory_state,
            player_state,
            authority,
            player,
            named,
        ),
        Err(refusal) => Err(refusal),
    }
}

/// The seed of the deal: the bytes of every player's identity, in the order of
/// the roster.
pub open spec fn seed_of(players: Seq<PlayerView>) -> Seq<u8>
    decreases players.len(),
{
    if players.len() == 0 {
        Seq::empty()
    } else {
        seed_of(players.drop_last()) + players.last().pubkey.octets()
    }
}

/// The number drawn for the territory at `position`: the digest that the
/// standard library's default hasher gives of the seed followed by the eight
/// bytes of the position, lowest byte first.
pub open spec fn drawn_number(seed: Seq<u8>, position: u64) -> u64 {
    DefaultHasher::spec_finish(seq![seed, spec_u64_to_le_bytes(position)])
}

/// The seat of the player who is dealt the territory at `position`.
pub open spec fn dealt_seat(roster: PlayerStateView, position: int) -> int {
    drawn_number(seed_of(roster.players), position as u64) as int % (roster.players.len() as int)
}

/// The territory at `position` as it is dealt: to the player at the seat drawn
/// for it, with three troops.
pub open spec fn dealt_territory(
    map: TerritoryStateView,
    roster: PlayerStateView,
    position: int,
) -> TerritoryView {
    TerritoryView {
        owner: Some(roster.players[dealt_seat(roster, position)].pubkey),
        troops: INITIAL_TROOPS,
        ..map.territories[position]
    }
}

/// The territory store after the first `dealt` territories were dealt.
pub open spec fn map_dealt_upto(
    map: TerritoryStateView,
    roster: PlayerStateView,
    dealt: int,
) -> TerritoryStateView {
    TerritoryStateView {
        territories: Seq::new(
            map.territories.len(),
            |t: int|
                if t < dealt {
                    dealt_territory(map, roster, t)
                } else {
                    map.territories[t]
                },
        ),
        ..map
    }
}

/// The territory store after every territory was dealt.
pub open spec fn map_after_distribution(
    map: TerritoryStateView,
    roster: PlayerStateView,
) -> TerritoryStateView {
    map_dealt_upto(map, roster, map.territories.len() as int)
}

/// Whether every territory of `map` is dealt out: it has three troops and is
/// held by a player of `roster`.
pub open spec fn dealt_out(map: TerritoryStateView, roster: PlayerStateView) -> bool {
    forall|t: int|
        0 <= t < map.territories.len() ==> {
            &&& (#[trigger] map.territories[t]).troops == INITIAL_TROOPS
            &&& exists|seat: int|
                0 <= seat < roster.players.len() && map.territories[t].owner == Some(
                    (#[trigger] roster.players[seat]).pubkey,
                )
        }
}

/// A deal deals every territory out, on the map as it was.
pub proof fn lemma_deal_deals_out(map: TerritoryStateView, roster: PlayerStateView)
    requires
        map.territories.len() > 0 ==> roster.players.len() > 0,
    ensures
        dealt_out(map_after_distribution(map, roster), roster),
        map.same_map(map_after_distribution(map, roster)),
{
    let after = map_after_distribution(map, roster);
    assert forall|t: int| 0 <= t < after.territories.len() implies {
        &&& (#[trigger] after.territories[t]).troops == INITIAL_TROOPS
        &&& exists|seat: int|
            0 <= seat < roster.players.len() && after.territories[t].owner == Some(
                (#[trigger] roster.players[seat]).pubkey,
            )
    } by {
        let seat = dealt_seat(roster, t);
        assert(0 <= seat < roster.players.len());
        assert(after.territories[t].owner == Some(roster.players[seat].pubkey));
    }
}

/// Draws the number for the territory at position `counter` from `seed`.
pub fn hash_to_index(seed: &[u8], counter: u64) -> (number: u64)
    ensures
        number == drawn_number(seed@, counter),
{
    let mut hasher = DefaultHasher::new();
    hasher.write(seed);
    let position = u64_to_le_bytes(counter);
    hasher.write(position.as_slice());
    proof {
        assert(hasher@ == seq![seed@, spec_u64_to_le_bytes(counter)]);
    }
    hasher.finish()
}

/// The seed of the deal for this roster.
pub fn deal_seed(player_state: &PlayerState) -> (seed: Vec<u8>)
    ensures
        seed@ == seed_of(player_state@.players),
{
    let mut seed: Vec<u8> = Vec::new();
    let mut i: usize = 0;
    while i < player_state.players.len()
        invariant
            i <= player_state.players@.len(),
            seed@ == seed_of(player_state@.players.take(i as int)),
        decreases player_state.players@.len() - i,
    {
        proof {
            assert(player_state@.players.take(i + 1).drop_last() == player_state@.players.take(
                i as int,
            ));
        }
        player_state.players[i].pubkey.append_to(&mut seed);
        i += 1;
    }
    proof {
        assert(player_state@.players.take(player_state@.players.len() as int)
            == player_state@.players);
    }
    seed
}

/// Why a deal is refused, if it is: there must be a player to deal to if
/// there is a territory to deal, and the credential must be that of the
/// territory store.
pub open spec fn deal_refusal(
    map: TerritoryStateView,
    roster: PlayerStateView,
    authority: Identity,
) -> Option<ErrorCode> {
    if map.territories.len() > 0 && roster.players.len() == 0 {
        Some(ErrorCode::PlayerNotFound)
    } else if map.authority != authority {
        Some(ErrorCode::InvalidAuthority)
    } else {
        None
    }
}

/// Deals every territory to a player of the roster and puts three troops on
/// it, writing to the territory store under the credential `authority`. A
/// refused deal changes nothing.
pub fn distribute_territories(
    territory_state: &mut TerritoryState,
    player_state: &PlayerState,
    authority: &Identity,
) -> (result: Result<(), ErrorCode>)
    ensures
        match deal_refusal(old(territory_state)@, player_state@, *authority) {
            Some(refusal) => result == Err::<(), ErrorCode>(refusal) && final(territory_state)@
                == old(territory_state)@,
            None => {
                &&& result == Ok::<(), ErrorCode>(())
                &&& final(territory_state)@ == map_after_distribution(
                    old(territory_state)@,
                    player_state@,
                )
                &&& dealt_out(final(territory_state)@, player_state@)
                &&& old(territory_state)@.same_map(final(territory_state)@)
            },
        },
{
    proof {
        if deal_refusal(old(territory_state)@, player_state@, *authority) is None {
            lemma_deal_deals_out(old(territory_state)@, player_state@);
        }
    }
    if territory_state.territories.len() > 0 && player_state.players.len() == 0 {
        return Err(ErrorCode::PlayerNotFound);
    }
    if territory_state.authority != *authority {
        return Err(ErrorCode::InvalidAuthority);
    }
    let seed = deal_seed(player_state);
    let player_count = player_state.players.len();
    let count = territory_state.territories.len();
    let ghost map = territory_state@;
    let ghost roster = player_state@;
    let mut i: usize = 0;
    proof {
        assert(map_dealt_upto(map, roster, 0).territories == map.territories);
    }
    while i < count
        invariant
            i <= count,
            count == map.territories.len(),
            count > 0 ==> player_count > 0,
            player_count == roster.players.len(),
            roster == player_state@,
            seed@ == seed_of(roster.players),
            map.authority == *authority,
            territory_state@ == map_dealt_upto(map, roster, i as int),
        decreases count - i,
    {
        let drawn = hash_to_index(seed.as_slice(), i as u64);
        let seat = (drawn % (player_count as u64)) as usize;
        let owner = player_state.players[seat].pubkey;
        let ghost before = territory_state@;
        proof {
            assert(before.territories.len() == count);
            assert(seat == dealt_seat(roster, i as int));
            assert(owner == roster.players[seat as int].pubkey);
        }
        territory_state.territories[i].owner = Some(owner);
        territory_state.territories[i].troops = INITIAL_TROOPS;
        proof {
            let after = map_dealt_upto(map, roster, i + 1);
            assert(territory_state@.territories.len() == count);
            assert forall|t: int| 0 <= t < count implies territory_state@.territories[t]
                == after.territories[t] by {
                if t != i {
                    assert(territory_state@.territories[t] == before.territories[t]);
                } else {
                    assert(before.territories[t] == map.territories[t]);
                }
            }
            assert(territory_state@.territories =~= after.territories);
        }
        i += 1;
    }
    Ok(())
}

/// Why the territories are not dealt, if they are not: the session must be in
/// progress, and the deal itself must be in order.
pub open spec fn distribution_refusal(
    game: GameView,
    map: TerritoryStateView,
    roster: PlayerStateView,
    authority: Identity,
) -> Option<ErrorCode> {
    if game.state != GameState::InProgress {
        Some(ErrorCode::GameNotInProgress)
    } else {
        deal_refusal(map, roster, authority)
    }
}

/// Deals the territories of a game in progress once more: each goes to a
/// player of the roster, drawn from the identities of all players and the
/// territory's position, and starts with three troops, whatever it held
/// before. The
/// session is completed if the deal leaves one player holding every territory.
/// A refused call changes nothing.
pub fn distribute_initial_territories(
    game: &mut Game,
    territory_state: &mut TerritoryState,
    player_state: &PlayerState,
    authority: &Identity,
) -> (result: Result<(), ErrorCode>)
    requires
        old(game)@.holds_map(old(territory_state)@),
        old(game)@.holds_roster(player_state@),
    ensures
        match distribution_refusal(
            old(game)@,
            old(territory_state)@,
            player_state@,
            *authority,
        ) {
            Some(refusal) => {
                &&& result == Err::<(), ErrorCode>(refusal)
                &&& final(game)@ == old(game)@
                &&& final(territory_state)@ == old(territory_state)@
            },
            None => {
                &&& result == Ok::<(), ErrorCode>(())
                &&& final(territory_state)@ == map_after_distribution(
                    old(territory_state)@,
                    player_state@,
                )
                &&& dealt_out(final(territory_state)@, player_state@)
                &&& old(territory_state)@.same_map(final(territory_state)@)
                &&& final(game)@ == (GameView {
                    state: if final(territory_state)@.has_winner() {
                        GameState::Completed
                    } else {
                        old(game)@.state
                    },
                    ..old(game)@
                })
            },
        },
{
    if game.state != GameState::InProgress {
        return Err(ErrorCode::GameNotInProgress);
    }
    match distribute_territories(territory_state, player_state, authority) {
        Err(refusal) => {
            return Err(refusal);
        },
        Ok(()) => {},
    }
    check_victory_condition(game, territory_state);
    Ok(())
}

} // verus!

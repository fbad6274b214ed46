use risk_game::fortify::fortify;
use risk_game::game::{ErrorCode, Game, GameState, TurnPhase};
use risk_game::identity::Identity;
use risk_game::territory::{Territory, TerritoryState};

fn f(i: u8) -> Identity {
    Identity::new([i; 32])
}

fn site(id: u8, owner: u8, troops: u8, adjacent: Vec<u8>) -> Territory {
    Territory {
        id,
        continent_id: 0,
        owner: Some(f(owner)),
        troops,
        adjacent_territories: adjacent,
    }
}

/// A - B - C in a row, all held by player 1, and D with no neighbours.
fn chain(owner_of_d: u8) -> TerritoryState {
    TerritoryState {
        territories: vec![
            site(0, 1, 5, vec![1]),
            site(1, 1, 1, vec![0, 2]),
            site(2, 1, 2, vec![1]),
            site(3, owner_of_d, 3, Vec::new()),
        ],
        continents: Vec::new(),
        game: f(100),
        authority: f(200),
    }
}

fn fortifying() -> Game {
    Game {
        key: f(100),
        current_player: f(1),
        turn: 3,
        state: GameState::InProgress,
        current_phase: TurnPhase::Fortification,
        cards_sets_turned_in: 0,
        last_attack_dice: None,
        pending_reinforcements: None,
        territory_account: f(101),
        player_account: f(102),
    }
}

#[test]
fn troops_move_along_a_chain_of_own_territories() {
    let game = fortifying();
    let mut map = chain(1);
    assert_eq!(fortify(&game, &mut map, &f(1), &f(200), 0, 2, 4), Ok(()));
    assert_eq!(map.territories[0].troops, 1);
    assert_eq!(map.territories[1].troops, 1);
    assert_eq!(map.territories[2].troops, 6);
    assert_eq!(map.territories[3].troops, 3);
    assert_eq!(map.territories[2].owner, Some(f(1)));
}

#[test]
fn any_number_below_the_troops_present_may_move() {
    let mut n: u8 = 0;
    while n < 5 {
        let mut map = chain(1);
        assert_eq!(fortify(&fortifying(), &mut map, &f(1), &f(200), 0, 2, n), Ok(()));
        assert_eq!(map.territories[0].troops, 5 - n);
        assert_eq!(map.territories[2].troops, 2 + n);
        n += 1;
    }
}

#[test]
fn one_troop_stays_behind() {
    let mut map = chain(1);
    let before = map.clone();
    assert_eq!(
        fortify(&fortifying(), &mut map, &f(1), &f(200), 0, 2, 5),
        Err(ErrorCode::InsufficientTroops)
    );
    assert_eq!(
        fortify(&fortifying(), &mut map, &f(1), &f(200), 1, 0, 1),
        Err(ErrorCode::InsufficientTroops)
    );
    assert_eq!(map, before);
}

#[test]
fn an_isolated_own_territory_cannot_be_reached() {
    let mut map = chain(1);
    let before = map.clone();
    assert_eq!(
        fortify(&fortifying(), &mut map, &f(1), &f(200), 0, 3, 1),
        Err(ErrorCode::TerritoriesNotConnected)
    );
    assert_eq!(
        fortify(&fortifying(), &mut map, &f(1), &f(200), 3, 0, 1),
        Err(ErrorCode::TerritoriesNotConnected)
    );
    assert_eq!(map, before);
}

#[test]
fn an_isolated_territory_cannot_be_reached_whoever_holds_it() {
    let mut map = chain(2);
    let before = map.clone();
    assert_eq!(
        fortify(&fortifying(), &mut map, &f(1), &f(200), 0, 3, 1),
        Err(ErrorCode::TerritoriesNotConnected)
    );
    assert_eq!(map, before);
    map.territories[3].owner = None;
    map.territories[3].troops = 0;
    let unheld = map.clone();
    assert_eq!(
        fortify(&fortifying(), &mut map, &f(1), &f(200), 0, 3, 1),
        Err(ErrorCode::TerritoriesNotConnected)
    );
    assert_eq!(map, unheld);
}

#[test]
fn a_foreign_neighbour_cannot_be_reached_either() {
    // D lies next to C now, but another player holds it
    let mut map = chain(2);
    map.territories[2].adjacent_territories.push(3);
    map.territories[3].adjacent_territories.push(2);
    let before = map.clone();
    assert_eq!(
        fortify(&fortifying(), &mut map, &f(1), &f(200), 0, 3, 1),
        Err(ErrorCode::TerritoriesNotConnected)
    );
    assert_eq!(
        fortify(&fortifying(), &mut map, &f(1), &f(200), 2, 3, 1),
        Err(ErrorCode::TerritoriesNotConnected)
    );
    assert_eq!(map, before);
}

#[test]
fn a_foreign_territory_in_between_cuts_the_way() {
    let mut map = chain(1);
    map.territories[1].owner = Some(f(2));
    let before = map.clone();
    assert_eq!(
        fortify(&fortifying(), &mut map, &f(1), &f(200), 0, 2, 1),
        Err(ErrorCode::TerritoriesNotConnected)
    );
    assert_eq!(map, before);
}

#[test]
fn troops_leave_an_own_territory_for_one_that_can_be_reached() {
    let mut map = chain(1);
    map.territories[2].owner = Some(f(2));
    let before = map.clone();
    // the territory that the troops leave must be the player's
    assert_eq!(
        fortify(&fortifying(), &mut map, &f(1), &f(200), 2, 0, 1),
        Err(ErrorCode::NotTerritoryOwner)
    );
    assert_eq!(
        fortify(&fortifying(), &mut map, &f(1), &f(200), 40, 0, 1),
        Err(ErrorCode::NotTerritoryOwner)
    );
    // a territory of another player, or one off the map, cannot be reached
    assert_eq!(
        fortify(&fortifying(), &mut map, &f(1), &f(200), 0, 2, 1),
        Err(ErrorCode::TerritoriesNotConnected)
    );
    assert_eq!(
        fortify(&fortifying(), &mut map, &f(1), &f(200), 0, 40, 1),
        Err(ErrorCode::TerritoriesNotConnected)
    );
    // too few troops are found before the way is looked for
    assert_eq!(
        fortify(&fortifying(), &mut map, &f(1), &f(200), 0, 2, 9),
        Err(ErrorCode::InsufficientTroops)
    );
    assert_eq!(map, before);
}

#[test]
fn a_move_within_one_territory_changes_nothing() {
    let mut map = chain(1);
    assert_eq!(fortify(&fortifying(), &mut map, &f(1), &f(200), 0, 0, 3), Ok(()));
    assert_eq!(map, chain(1));
}

#[test]
fn troops_move_in_the_fortification_phase_of_the_own_turn() {
    let mut map = chain(1);
    let mut game = fortifying();
    assert_eq!(
        fortify(&game, &mut map, &f(2), &f(200), 0, 2, 1),
        Err(ErrorCode::NotPlayerTurn)
    );
    game.current_phase = TurnPhase::Attack;
    assert_eq!(fortify(&game, &mut map, &f(1), &f(200), 0, 2, 1), Err(ErrorCode::InvalidPhase));
    game.current_phase = TurnPhase::Reinforcement;
    assert_eq!(fortify(&game, &mut map, &f(1), &f(200), 0, 2, 1), Err(ErrorCode::InvalidPhase));
    game.current_phase = TurnPhase::Fortification;
    game.state = GameState::Completed;
    assert_eq!(
        fortify(&game, &mut map, &f(1), &f(200), 0, 2, 1),
        Err(ErrorCode::GameNotInProgress)
    );
    assert_eq!(map, chain(1));
}

#[test]
fn a_move_needs_the_authority_of_the_map() {
    let mut map = chain(1);
    assert_eq!(
        fortify(&fortifying(), &mut map, &f(1), &f(1), 0, 2, 1),
        Err(ErrorCode::InvalidAuthority)
    );
    assert_eq!(map, chain(1));
}

#[test]
fn a_move_keeps_the_troops_on_the_map() {
    let mut map = chain(1);
    let before: u32 = map.territories.iter().map(|t| t.troops as u32).sum();
    assert_eq!(fortify(&fortifying(), &mut map, &f(1), &f(200), 2, 0, 1), Ok(()));
    assert_eq!(fortify(&fortifying(), &mut map, &f(1), &f(200), 0, 1, 3), Ok(()));
    let after: u32 = map.territories.iter().map(|t| t.troops as u32).sum();
    assert_eq!(after, before);
    assert_eq!(map.territories[0].troops, 3);
    assert_eq!(map.territories[1].troops, 4);
    assert_eq!(map.territories[2].troops, 1);
}

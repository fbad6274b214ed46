use risk_game::attack::attack;
use risk_game::combat::{AttackDice, DiceEntropy};
use risk_game::game::{ErrorCode, Game, GameState, TurnPhase};
use risk_game::identity::Identity;
use risk_game::player::{Player, PlayerColor, PlayerState};
use risk_game::territory::{Territory, TerritoryState};

fn a(i: u8) -> Identity {
    Identity::new([i; 32])
}

fn field(id: u8, owner: Option<u8>, troops: u8) -> Territory {
    Territory {
        id,
        continent_id: 0,
        owner: owner.map(a),
        troops,
        adjacent_territories: Vec::new(),
    }
}

/// Territory 0 and 1 belong to player 1, territory 2 and 3 to player 2, and
/// territory 4 to nobody.
fn board() -> TerritoryState {
    TerritoryState {
        territories: vec![
            field(0, Some(1), 5),
            field(1, Some(1), 2),
            field(2, Some(2), 2),
            field(3, Some(2), 1),
            field(4, None, 0),
        ],
        continents: Vec::new(),
        game: a(100),
        authority: a(200),
    }
}

fn two_players() -> PlayerState {
    PlayerState {
        players: vec![
            Player {
                pubkey: a(1),
                color: PlayerColor::Red,
                cards: Vec::new(),
                conquered_territory_this_turn: false,
            },
            Player {
                pubkey: a(2),
                color: PlayerColor::Blue,
                cards: Vec::new(),
                conquered_territory_this_turn: false,
            },
        ],
        game: a(100),
        authority: a(200),
    }
}

fn attacking() -> Game {
    Game {
        key: a(100),
        current_player: a(1),
        turn: 3,
        state: GameState::InProgress,
        current_phase: TurnPhase::Attack,
        cards_sets_turned_in: 0,
        last_attack_dice: None,
        pending_reinforcements: None,
        territory_account: a(101),
        player_account: a(102),
    }
}

/// Draws that show the given faces.
fn faces(attacker: [u8; 3], defender: [u8; 2]) -> DiceEntropy {
    DiceEntropy {
        attacker: [attacker[0] - 1, attacker[1] - 1, attacker[2] - 1],
        defender: [defender[0] - 1, defender[1] - 1],
    }
}

#[test]
fn one_die_six_against_one_die_three() {
    let (mut game, mut map, mut roster) = (attacking(), board(), two_players());
    map.territories[2].troops = 1;
    map.territories[2].owner = Some(a(2));
    map.territories[3].troops = 4;
    let draws = faces([6, 1, 1], [3, 1]);
    // territory 3 has four troops and defends with two dice; attack territory 2
    // which defends with one
    assert_eq!(attack(&mut game, &mut map, &mut roster, &a(1), &a(200), 0, 2, 1, &draws), Ok(()));
    assert_eq!(
        game.last_attack_dice,
        Some(AttackDice { attacker: vec![6], defender: vec![3] })
    );
    // the defender lost its only troop, the attacker none
    assert_eq!(map.territories[0].troops, 5);
    assert_eq!(map.territories[2].owner, Some(a(1)));
    assert_eq!(map.territories[2].troops, 1);
    assert!(roster.players[0].conquered_territory_this_turn);
    assert!(!roster.players[1].conquered_territory_this_turn);
}

#[test]
fn equal_dice_cost_the_attacker() {
    let (mut game, mut map, mut roster) = (attacking(), board(), two_players());
    let draws = faces([4, 1, 1], [4, 1]);
    assert_eq!(attack(&mut game, &mut map, &mut roster, &a(1), &a(200), 0, 3, 1, &draws), Ok(()));
    assert_eq!(
        game.last_attack_dice,
        Some(AttackDice { attacker: vec![4], defender: vec![4] })
    );
    assert_eq!(map.territories[0].troops, 4);
    assert_eq!(map.territories[3].troops, 1);
    assert_eq!(map.territories[3].owner, Some(a(2)));
    assert!(!roster.players[0].conquered_territory_this_turn);
    assert_eq!(game.state, GameState::InProgress);
}

#[test]
fn three_dice_against_two() {
    let (mut game, mut map, mut roster) = (attacking(), board(), two_players());
    map.territories[2].troops = 6;
    // the attacker rolls 2, 6, 4 and the defender 5, 5
    let draws = faces([2, 6, 4], [5, 5]);
    assert_eq!(attack(&mut game, &mut map, &mut roster, &a(1), &a(200), 0, 2, 3, &draws), Ok(()));
    assert_eq!(
        game.last_attack_dice,
        Some(AttackDice { attacker: vec![6, 4, 2], defender: vec![5, 5] })
    );
    // 6 beats 5, 4 loses to 5
    assert_eq!(map.territories[0].troops, 4);
    assert_eq!(map.territories[2].troops, 5);
    assert_eq!(map.territories[2].owner, Some(a(2)));
    assert_eq!(map.territories[0].owner, Some(a(1)));
    assert_eq!(roster, two_players());
}

#[test]
fn a_territory_defends_with_as_many_dice_as_it_has_troops_up_to_two() {
    let (mut game, mut map, mut roster) = (attacking(), board(), two_players());
    // territory 3 has one troop
    let draws = faces([1, 1, 2], [6, 6]);
    assert_eq!(attack(&mut game, &mut map, &mut roster, &a(1), &a(200), 0, 3, 3, &draws), Ok(()));
    assert_eq!(
        game.last_attack_dice,
        Some(AttackDice { attacker: vec![2, 1, 1], defender: vec![6] })
    );
    assert_eq!(map.territories[0].troops, 4);
    assert_eq!(map.territories[3].troops, 1);
}

#[test]
fn only_the_dice_that_are_rolled_are_read() {
    let (mut game, mut map, mut roster) = (attacking(), board(), two_players());
    // one attacking die: the second and third draw are not looked at
    let draws = faces([2, 6, 6], [3, 6]);
    assert_eq!(attack(&mut game, &mut map, &mut roster, &a(1), &a(200), 0, 3, 1, &draws), Ok(()));
    assert_eq!(
        game.last_attack_dice,
        Some(AttackDice { attacker: vec![2], defender: vec![3] })
    );
    assert_eq!(map.territories[0].troops, 4);
}

#[test]
fn a_fallen_territory_goes_to_the_attacker_with_the_dice_rolled() {
    let (mut game, mut map, mut roster) = (attacking(), board(), two_players());
    let draws = faces([6, 6, 5], [1, 2]);
    assert_eq!(attack(&mut game, &mut map, &mut roster, &a(1), &a(200), 0, 2, 3, &draws), Ok(()));
    assert_eq!(map.territories[2].owner, Some(a(1)));
    assert_eq!(map.territories[2].troops, 3);
    assert_eq!(map.territories[0].troops, 5);
    assert!(roster.players[0].conquered_territory_this_turn);
    // player 2 still holds territory 3
    assert_eq!(game.state, GameState::InProgress);
    assert_eq!(game.current_phase, TurnPhase::Attack);
    assert_eq!(game.current_player, a(1));
}

#[test]
fn an_empty_territory_falls_without_a_fight() {
    let (mut game, mut map, mut roster) = (attacking(), board(), two_players());
    let draws = faces([1, 1, 1], [6, 6]);
    assert_eq!(attack(&mut game, &mut map, &mut roster, &a(1), &a(200), 0, 4, 2, &draws), Ok(()));
    assert_eq!(
        game.last_attack_dice,
        Some(AttackDice { attacker: vec![1, 1], defender: Vec::new() })
    );
    assert_eq!(map.territories[4].owner, Some(a(1)));
    assert_eq!(map.territories[4].troops, 2);
    assert_eq!(map.territories[0].troops, 5);
    assert!(roster.players[0].conquered_territory_this_turn);
}

#[test]
fn holding_every_territory_completes_the_game() {
    let (mut game, mut roster) = (attacking(), two_players());
    let mut map = TerritoryState {
        territories: vec![field(0, Some(1), 4), field(1, Some(2), 1)],
        continents: Vec::new(),
        game: a(100),
        authority: a(200),
    };
    let draws = faces([5, 1, 1], [2, 1]);
    assert_eq!(attack(&mut game, &mut map, &mut roster, &a(1), &a(200), 0, 1, 2, &draws), Ok(()));
    assert_eq!(map.territories[1].owner, Some(a(1)));
    assert_eq!(game.state, GameState::Completed);
}

#[test]
fn the_attacker_must_hold_the_territory_attacked_from() {
    let (mut game, mut map, mut roster) = (attacking(), board(), two_players());
    let before = (game.clone(), map.clone(), roster.clone());
    let draws = faces([6, 6, 6], [1, 1]);
    assert_eq!(
        attack(&mut game, &mut map, &mut roster, &a(1), &a(200), 2, 3, 1, &draws),
        Err(ErrorCode::NotTerritoryOwner)
    );
    assert_eq!(
        attack(&mut game, &mut map, &mut roster, &a(1), &a(200), 4, 3, 1, &draws),
        Err(ErrorCode::NotTerritoryOwner)
    );
    assert_eq!(
        attack(&mut game, &mut map, &mut roster, &a(1), &a(200), 99, 3, 1, &draws),
        Err(ErrorCode::NotTerritoryOwner)
    );
    assert_eq!((game, map, roster), before);
}

#[test]
fn more_troops_than_dice_must_stand_on_the_territory_attacked_from() {
    let (mut game, mut map, mut roster) = (attacking(), board(), two_players());
    let before = (game.clone(), map.clone(), roster.clone());
    let draws = faces([6, 6, 6], [1, 1]);
    // territory 1 has two troops
    assert_eq!(
        attack(&mut game, &mut map, &mut roster, &a(1), &a(200), 1, 2, 2, &draws),
        Err(ErrorCode::InsufficientTroops)
    );
    assert_eq!(
        attack(&mut game, &mut map, &mut roster, &a(1), &a(200), 1, 2, 3, &draws),
        Err(ErrorCode::InsufficientTroops)
    );
    // too few troops are found before too many dice are
    assert_eq!(
        attack(&mut game, &mut map, &mut roster, &a(1), &a(200), 0, 2, 5, &draws),
        Err(ErrorCode::InsufficientTroops)
    );
    assert_eq!((game, map, roster), before);
}

#[test]
fn one_to_three_dice_are_rolled() {
    let (mut game, mut map, mut roster) = (attacking(), board(), two_players());
    map.territories[0].troops = 9;
    let before = (game.clone(), map.clone(), roster.clone());
    let draws = faces([6, 6, 6], [1, 1]);
    assert_eq!(
        attack(&mut game, &mut map, &mut roster, &a(1), &a(200), 0, 2, 0, &draws),
        Err(ErrorCode::InvalidDiceCount)
    );
    assert_eq!(
        attack(&mut game, &mut map, &mut roster, &a(1), &a(200), 0, 2, 4, &draws),
        Err(ErrorCode::InvalidDiceCount)
    );
    assert_eq!((game, map, roster), before);
}

#[test]
fn nobody_attacks_an_own_territory() {
    let (mut game, mut map, mut roster) = (attacking(), board(), two_players());
    let before = (game.clone(), map.clone(), roster.clone());
    let draws = faces([6, 6, 6], [1, 1]);
    assert_eq!(
        attack(&mut game, &mut map, &mut roster, &a(1), &a(200), 0, 1, 1, &draws),
        Err(ErrorCode::CannotAttackOwnTerritory)
    );
    assert_eq!(
        attack(&mut game, &mut map, &mut roster, &a(1), &a(200), 0, 0, 1, &draws),
        Err(ErrorCode::CannotAttackOwnTerritory)
    );
    assert_eq!((game, map, roster), before);
}

#[test]
fn an_attack_belongs_to_the_attack_phase_of_the_own_turn() {
    let (mut game, mut map, mut roster) = (attacking(), board(), two_players());
    let draws = faces([6, 6, 6], [1, 1]);
    assert_eq!(
        attack(&mut game, &mut map, &mut roster, &a(2), &a(200), 2, 0, 1, &draws),
        Err(ErrorCode::NotPlayerTurn)
    );
    game.current_phase = TurnPhase::Reinforcement;
    assert_eq!(
        attack(&mut game, &mut map, &mut roster, &a(1), &a(200), 0, 2, 1, &draws),
        Err(ErrorCode::InvalidPhase)
    );
    game.current_phase = TurnPhase::Fortification;
    assert_eq!(
        attack(&mut game, &mut map, &mut roster, &a(1), &a(200), 0, 2, 1, &draws),
        Err(ErrorCode::InvalidPhase)
    );
    game.current_phase = TurnPhase::Attack;
    game.state = GameState::Setup;
    assert_eq!(
        attack(&mut game, &mut map, &mut roster, &a(1), &a(200), 0, 2, 1, &draws),
        Err(ErrorCode::GameNotInProgress)
    );
    assert_eq!(map, board());
    assert_eq!(roster, two_players());
    assert_eq!(game.last_attack_dice, None);
}

#[test]
fn an_attack_needs_the_authority_of_the_map() {
    let (mut game, mut map, mut roster) = (attacking(), board(), two_players());
    let before = (game.clone(), map.clone(), roster.clone());
    let draws = faces([6, 6, 6], [1, 1]);
    assert_eq!(
        attack(&mut game, &mut map, &mut roster, &a(1), &a(1), 0, 2, 1, &draws),
        Err(ErrorCode::InvalidAuthority)
    );
    assert_eq!((game, map, roster), before);
}

#[test]
fn a_conquest_needs_the_authority_of_the_roster() {
    let (mut game, mut map, mut roster) = (attacking(), board(), two_players());
    roster.authority = a(201);
    let before = (game.clone(), map.clone(), roster.clone());
    let winning = faces([6, 6, 6], [1, 1]);
    assert_eq!(
        attack(&mut game, &mut map, &mut roster, &a(1), &a(200), 0, 2, 2, &winning),
        Err(ErrorCode::InvalidAuthority)
    );
    assert_eq!((game.clone(), map.clone(), roster.clone()), before);
    // an attack that conquers nothing writes to the map only
    let losing = faces([1, 1, 1], [6, 6]);
    assert_eq!(attack(&mut game, &mut map, &mut roster, &a(1), &a(200), 0, 2, 2, &losing), Ok(()));
    assert_eq!(map.territories[0].troops, 3);
    assert_eq!(roster, before.2);
}

#[test]
fn a_conqueror_must_be_on_the_roster() {
    let (mut game, mut map, mut roster) = (attacking(), board(), two_players());
    roster.players.remove(0);
    let before = (game.clone(), map.clone(), roster.clone());
    let winning = faces([6, 6, 6], [1, 1]);
    assert_eq!(
        attack(&mut game, &mut map, &mut roster, &a(1), &a(200), 0, 2, 2, &winning),
        Err(ErrorCode::PlayerNotFound)
    );
    assert_eq!((game, map, roster), before);
}

#[test]
fn the_last_dice_are_overwritten_by_the_next_attack() {
    let (mut game, mut map, mut roster) = (attacking(), board(), two_players());
    let first = faces([3, 1, 1], [5, 1]);
    assert_eq!(attack(&mut game, &mut map, &mut roster, &a(1), &a(200), 0, 2, 1, &first), Ok(()));
    assert_eq!(
        game.last_attack_dice,
        Some(AttackDice { attacker: vec![3], defender: vec![5, 1] })
    );
    let second = faces([2, 4, 1], [1, 6]);
    assert_eq!(attack(&mut game, &mut map, &mut roster, &a(1), &a(200), 0, 2, 2, &second), Ok(()));
    assert_eq!(
        game.last_attack_dice,
        Some(AttackDice { attacker: vec![4, 2], defender: vec![6, 1] })
    );
    // 3 against 5 cost the attacker one; 4 against 6 another, 2 against 1 the defender
    assert_eq!(map.territories[0].troops, 3);
    assert_eq!(map.territories[2].troops, 1);
}

#[test]
fn a_territory_off_the_map_cannot_be_attacked() {
    let (mut game, mut map, mut roster) = (attacking(), board(), two_players());
    let before = (game.clone(), map.clone(), roster.clone());
    let draws = faces([6, 6, 6], [1, 1]);
    assert_eq!(
        attack(&mut game, &mut map, &mut roster, &a(1), &a(200), 0, 5, 1, &draws),
        Err(ErrorCode::NotTerritoryOwner)
    );
    assert_eq!(
        attack(&mut game, &mut map, &mut roster, &a(1), &a(200), 0, 255, 3, &draws),
        Err(ErrorCode::NotTerritoryOwner)
    );
    // the dice are counted before the target is looked at
    assert_eq!(
        attack(&mut game, &mut map, &mut roster, &a(1), &a(200), 0, 255, 4, &draws),
        Err(ErrorCode::InvalidDiceCount)
    );
    assert_eq!((game, map, roster), before);
}

use risk_game::cards::{CardType, RiskCard};
use risk_game::game::{check_turn, ErrorCode, Game, GameState, TurnPhase};
use risk_game::identity::Identity;
use risk_game::player::{Player, PlayerColor, PlayerState};
use risk_game::trade::{award_card, trade_cards};
use risk_game::turn::{end_phase, next_turn};

fn n(i: u8) -> Identity {
    Identity::new([i; 32])
}

fn c(card_type: CardType) -> RiskCard {
    RiskCard { card_type, territory_id: None }
}

fn seat(i: u8, color: PlayerColor, cards: Vec<RiskCard>) -> Player {
    Player { pubkey: n(i), color, cards, conquered_territory_this_turn: false }
}

fn three_players() -> PlayerState {
    PlayerState {
        players: vec![
            seat(1, PlayerColor::Red, Vec::new()),
            seat(2, PlayerColor::Blue, Vec::new()),
            seat(3, PlayerColor::Green, Vec::new()),
        ],
        game: n(100),
        authority: n(200),
    }
}

fn in_progress(current: u8, phase: TurnPhase) -> Game {
    Game {
        key: n(100),
        current_player: n(current),
        turn: 1,
        state: GameState::InProgress,
        current_phase: phase,
        cards_sets_turned_in: 0,
        last_attack_dice: None,
        pending_reinforcements: None,
        territory_account: n(101),
        player_account: n(102),
    }
}

#[test]
fn the_turn_check_names_the_first_thing_that_is_wrong() {
    let mut game = in_progress(1, TurnPhase::Attack);
    assert_eq!(check_turn(&game, &n(1), TurnPhase::Attack), Ok(()));
    assert_eq!(check_turn(&game, &n(1), TurnPhase::Fortification), Err(ErrorCode::InvalidPhase));
    assert_eq!(check_turn(&game, &n(2), TurnPhase::Fortification), Err(ErrorCode::NotPlayerTurn));
    game.state = GameState::Setup;
    assert_eq!(
        check_turn(&game, &n(2), TurnPhase::Fortification),
        Err(ErrorCode::GameNotInProgress)
    );
    assert_eq!(check_turn(&game, &n(1), TurnPhase::Attack), Err(ErrorCode::GameNotInProgress));
}

#[test]
fn three_ends_of_phase_make_one_turn() {
    let mut game = in_progress(1, TurnPhase::Reinforcement);
    let mut roster = three_players();
    assert_eq!(end_phase(&mut game, &mut roster, &n(1), &n(200), 0), Ok(()));
    assert_eq!(game.current_phase, TurnPhase::Attack);
    assert_eq!(game.current_player, n(1));
    assert_eq!(game.turn, 1);
    assert_eq!(end_phase(&mut game, &mut roster, &n(1), &n(200), 0), Ok(()));
    assert_eq!(game.current_phase, TurnPhase::Fortification);
    assert_eq!(game.current_player, n(1));
    assert_eq!(game.turn, 1);
    assert_eq!(end_phase(&mut game, &mut roster, &n(1), &n(200), 0), Ok(()));
    assert_eq!(game.current_phase, TurnPhase::Reinforcement);
    assert_eq!(game.current_player, n(2));
    assert_eq!(game.turn, 2);
    assert_eq!(roster, three_players());
}

#[test]
fn the_turn_goes_round_the_roster() {
    let mut game = in_progress(1, TurnPhase::Fortification);
    let mut roster = three_players();
    assert_eq!(end_phase(&mut game, &mut roster, &n(1), &n(200), 0), Ok(()));
    assert_eq!(game.current_player, n(2));
    game.current_phase = TurnPhase::Fortification;
    assert_eq!(end_phase(&mut game, &mut roster, &n(2), &n(200), 0), Ok(()));
    assert_eq!(game.current_player, n(3));
    game.current_phase = TurnPhase::Fortification;
    assert_eq!(end_phase(&mut game, &mut roster, &n(3), &n(200), 0), Ok(()));
    assert_eq!(game.current_player, n(1));
    assert_eq!(game.turn, 4);
}

#[test]
fn the_next_turn_belongs_to_the_next_seat() {
    let roster = three_players();
    let mut game = in_progress(3, TurnPhase::Reinforcement);
    game.turn = 41;
    next_turn(&mut game, &roster);
    assert_eq!(game.current_player, n(1));
    assert_eq!(game.turn, 42);
    next_turn(&mut game, &roster);
    assert_eq!(game.current_player, n(2));
    assert_eq!(game.turn, 43);
    assert_eq!(game.current_phase, TurnPhase::Reinforcement);
}

#[test]
fn only_the_player_whose_turn_it_is_ends_a_phase() {
    let mut game = in_progress(1, TurnPhase::Attack);
    let mut roster = three_players();
    let before = (game.clone(), roster.clone());
    assert_eq!(end_phase(&mut game, &mut roster, &n(2), &n(200), 0), Err(ErrorCode::NotPlayerTurn));
    assert_eq!((game, roster), before);
}

#[test]
fn no_phase_ends_outside_a_game_in_progress() {
    let mut roster = three_players();
    let mut game = in_progress(1, TurnPhase::Attack);
    game.state = GameState::Setup;
    assert_eq!(
        end_phase(&mut game, &mut roster, &n(1), &n(200), 0),
        Err(ErrorCode::GameNotInProgress)
    );
    game.state = GameState::Completed;
    assert_eq!(
        end_phase(&mut game, &mut roster, &n(1), &n(200), 0),
        Err(ErrorCode::GameNotInProgress)
    );
    assert_eq!(game.current_phase, TurnPhase::Attack);
}

#[test]
fn reinforcements_must_be_placed_before_the_phase_ends() {
    let mut game = in_progress(1, TurnPhase::Reinforcement);
    game.pending_reinforcements = Some(3);
    let mut roster = three_players();
    let before = (game.clone(), roster.clone());
    assert_eq!(end_phase(&mut game, &mut roster, &n(1), &n(200), 0), Err(ErrorCode::InvalidPhase));
    assert_eq!((game.clone(), roster.clone()), before);
    game.pending_reinforcements = Some(0);
    assert_eq!(end_phase(&mut game, &mut roster, &n(1), &n(200), 0), Ok(()));
    assert_eq!(game.current_phase, TurnPhase::Attack);
}

#[test]
fn a_conqueror_is_handed_a_card_at_the_end_of_the_turn() {
    let mut game = in_progress(2, TurnPhase::Fortification);
    let mut roster = three_players();
    roster.players[1].conquered_territory_this_turn = true;
    roster.players[1].cards = vec![c(CardType::Wild)];
    assert_eq!(end_phase(&mut game, &mut roster, &n(2), &n(200), 6), Ok(()));
    assert_eq!(roster.players[1].cards, vec![c(CardType::Wild), c(CardType::Artillery)]);
    assert!(!roster.players[1].conquered_territory_this_turn);
    assert_eq!(roster.players[0], three_players().players[0]);
    assert_eq!(roster.players[2], three_players().players[2]);
    assert_eq!(game.current_player, n(3));
    assert_eq!(game.current_phase, TurnPhase::Reinforcement);
    assert_eq!(game.turn, 2);
}

#[test]
fn without_a_conquest_there_is_no_card() {
    let mut game = in_progress(2, TurnPhase::Fortification);
    let mut roster = three_players();
    assert_eq!(end_phase(&mut game, &mut roster, &n(2), &n(200), 6), Ok(()));
    assert_eq!(roster, three_players());
    assert_eq!(game.current_player, n(3));
}

#[test]
fn a_full_hand_gets_no_card_and_the_turn_passes_on() {
    let mut game = in_progress(1, TurnPhase::Fortification);
    let mut roster = three_players();
    let full = vec![
        c(CardType::Infantry),
        c(CardType::Infantry),
        c(CardType::Cavalry),
        c(CardType::Cavalry),
        c(CardType::Wild),
    ];
    roster.players[0].cards = full.clone();
    roster.players[0].conquered_territory_this_turn = true;
    assert_eq!(end_phase(&mut game, &mut roster, &n(1), &n(200), 1), Ok(()));
    assert_eq!(roster.players[0].cards, full);
    assert!(!roster.players[0].conquered_territory_this_turn);
    assert_eq!(game.current_player, n(2));
    assert_eq!(game.current_phase, TurnPhase::Reinforcement);
    assert_eq!(game.turn, 2);
}

#[test]
fn a_card_is_handed_out_under_the_authority_only() {
    let mut game = in_progress(1, TurnPhase::Fortification);
    let mut roster = three_players();
    roster.players[0].conquered_territory_this_turn = true;
    let before = (game.clone(), roster.clone());
    assert_eq!(
        end_phase(&mut game, &mut roster, &n(1), &n(1), 1),
        Err(ErrorCode::InvalidAuthority)
    );
    assert_eq!((game.clone(), roster.clone()), before);
    // with nothing to write, no credential is asked for
    roster.players[0].conquered_territory_this_turn = false;
    assert_eq!(end_phase(&mut game, &mut roster, &n(1), &n(1), 1), Ok(()));
    assert_eq!(game.current_player, n(2));
}

#[test]
fn a_player_off_the_roster_cannot_end_the_turn() {
    let mut game = in_progress(9, TurnPhase::Fortification);
    let mut roster = three_players();
    let before = (game.clone(), roster.clone());
    assert_eq!(
        end_phase(&mut game, &mut roster, &n(9), &n(200), 1),
        Err(ErrorCode::PlayerNotFound)
    );
    assert_eq!((game, roster), before);
}

#[test]
fn a_card_is_awarded_to_a_hand_with_room() {
    let mut roster = three_players();
    assert_eq!(award_card(&mut roster, &n(200), &n(3), c(CardType::Cavalry)), Ok(()));
    assert_eq!(award_card(&mut roster, &n(200), &n(3), c(CardType::Wild)), Ok(()));
    assert_eq!(roster.players[2].cards, vec![c(CardType::Cavalry), c(CardType::Wild)]);
    assert!(roster.players[0].cards.is_empty());
}

#[test]
fn a_hand_of_five_takes_no_more() {
    let mut roster = three_players();
    let mut given: u8 = 0;
    while given < 5 {
        assert_eq!(award_card(&mut roster, &n(200), &n(1), c(CardType::Infantry)), Ok(()));
        given += 1;
    }
    let before = roster.clone();
    assert_eq!(
        award_card(&mut roster, &n(200), &n(1), c(CardType::Infantry)),
        Err(ErrorCode::CardLimitReached)
    );
    assert_eq!(roster, before);
    assert_eq!(roster.players[0].cards.len(), 5);
}

#[test]
fn a_card_is_not_awarded_without_authority_or_player() {
    let mut roster = three_players();
    let before = roster.clone();
    assert_eq!(
        award_card(&mut roster, &n(1), &n(1), c(CardType::Infantry)),
        Err(ErrorCode::InvalidAuthority)
    );
    assert_eq!(
        award_card(&mut roster, &n(200), &n(7), c(CardType::Infantry)),
        Err(ErrorCode::PlayerNotFound)
    );
    assert_eq!(roster, before);
}

#[test]
fn a_set_is_traded_for_armies() {
    let mut game = in_progress(1, TurnPhase::Reinforcement);
    let mut roster = three_players();
    roster.players[0].cards = vec![
        c(CardType::Infantry),
        c(CardType::Cavalry),
        c(CardType::Infantry),
        c(CardType::Wild),
        c(CardType::Infantry),
    ];
    assert_eq!(trade_cards(&mut game, &mut roster, &n(1), &n(200), vec![4, 0, 2]), Ok(()));
    assert_eq!(roster.players[0].cards, vec![c(CardType::Cavalry), c(CardType::Wild)]);
    assert_eq!(game.pending_reinforcements, Some(4));
    assert_eq!(game.cards_sets_turned_in, 1);
    assert_eq!(game.current_phase, TurnPhase::Reinforcement);
    assert_eq!(roster.players[1], three_players().players[1]);
}

#[test]
fn the_bonus_is_added_to_what_is_waiting() {
    let mut game = in_progress(1, TurnPhase::Reinforcement);
    game.pending_reinforcements = Some(7);
    game.cards_sets_turned_in = 3;
    let mut roster = three_players();
    roster.players[0].cards = vec![c(CardType::Wild), c(CardType::Cavalry), c(CardType::Artillery)];
    assert_eq!(trade_cards(&mut game, &mut roster, &n(1), &n(200), vec![0, 1, 2]), Ok(()));
    assert!(roster.players[0].cards.is_empty());
    assert_eq!(game.pending_reinforcements, Some(17));
    assert_eq!(game.cards_sets_turned_in, 4);
}

#[test]
fn later_sets_are_worth_more() {
    let expected: [u8; 7] = [4, 6, 8, 10, 12, 15, 15];
    let mut game = in_progress(1, TurnPhase::Reinforcement);
    let mut roster = three_players();
    let mut round: usize = 0;
    while round < 7 {
        roster.players[0].cards =
            vec![c(CardType::Artillery), c(CardType::Artillery), c(CardType::Artillery)];
        game.pending_reinforcements = None;
        assert_eq!(trade_cards(&mut game, &mut roster, &n(1), &n(200), vec![2, 1, 0]), Ok(()));
        assert_eq!(game.pending_reinforcements, Some(expected[round]));
        assert_eq!(game.cards_sets_turned_in as usize, round + 1);
        round += 1;
    }
}

#[test]
fn a_card_awarded_and_a_set_traded_leave_two_cards_fewer() {
    let mut roster = three_players();
    roster.players[1].cards = vec![
        c(CardType::Cavalry),
        c(CardType::Infantry),
        c(CardType::Cavalry),
        c(CardType::Artillery),
    ];
    let mut game = in_progress(2, TurnPhase::Fortification);
    game.cards_sets_turned_in = 2;
    roster.players[1].conquered_territory_this_turn = true;
    assert_eq!(end_phase(&mut game, &mut roster, &n(2), &n(200), 1), Ok(()));
    assert_eq!(roster.players[1].cards.len(), 5);
    // the turn comes round again
    game.current_player = n(2);
    assert_eq!(trade_cards(&mut game, &mut roster, &n(2), &n(200), vec![0, 2, 4]), Ok(()));
    assert_eq!(roster.players[1].cards.len(), 4 - 2);
    assert_eq!(roster.players[1].cards, vec![c(CardType::Infantry), c(CardType::Artillery)]);
    assert_eq!(game.cards_sets_turned_in, 2 + 1);
    assert_eq!(game.pending_reinforcements, Some(8));
}

#[test]
fn a_trade_needs_exactly_three_indices() {
    let mut game = in_progress(1, TurnPhase::Reinforcement);
    let mut roster = three_players();
    roster.players[0].cards = vec![
        c(CardType::Infantry),
        c(CardType::Infantry),
        c(CardType::Infantry),
        c(CardType::Infantry),
    ];
    let before = (game.clone(), roster.clone());
    assert_eq!(
        trade_cards(&mut game, &mut roster, &n(1), &n(200), vec![0, 1]),
        Err(ErrorCode::InvalidCardSet)
    );
    assert_eq!(
        trade_cards(&mut game, &mut roster, &n(1), &n(200), vec![0, 1, 2, 3]),
        Err(ErrorCode::InvalidCardSet)
    );
    assert_eq!(
        trade_cards(&mut game, &mut roster, &n(1), &n(200), Vec::new()),
        Err(ErrorCode::InvalidCardSet)
    );
    // the number of indices is looked at before the indices are
    assert_eq!(
        trade_cards(&mut game, &mut roster, &n(1), &n(200), vec![9, 9]),
        Err(ErrorCode::InvalidCardSet)
    );
    assert_eq!((game, roster), before);
}

#[test]
fn an_index_past_the_hand_is_refused() {
    let mut game = in_progress(1, TurnPhase::Reinforcement);
    let mut roster = three_players();
    roster.players[0].cards =
        vec![c(CardType::Infantry), c(CardType::Infantry), c(CardType::Infantry)];
    let before = (game.clone(), roster.clone());
    assert_eq!(
        trade_cards(&mut game, &mut roster, &n(1), &n(200), vec![0, 1, 3]),
        Err(ErrorCode::InvalidCardIndex)
    );
    assert_eq!(
        trade_cards(&mut game, &mut roster, &n(1), &n(200), vec![255, 1, 2]),
        Err(ErrorCode::InvalidCardIndex)
    );
    assert_eq!((game, roster), before);
}

#[test]
fn cards_that_form_no_set_are_refused() {
    let mut game = in_progress(1, TurnPhase::Reinforcement);
    let mut roster = three_players();
    roster.players[0].cards = vec![
        c(CardType::Infantry),
        c(CardType::Cavalry),
        c(CardType::Cavalry),
        c(CardType::Wild),
    ];
    let before = (game.clone(), roster.clone());
    assert_eq!(
        trade_cards(&mut game, &mut roster, &n(1), &n(200), vec![0, 1, 2]),
        Err(ErrorCode::InvalidCardSet)
    );
    assert_eq!(
        trade_cards(&mut game, &mut roster, &n(1), &n(200), vec![1, 2, 3]),
        Err(ErrorCode::InvalidCardSet)
    );
    assert_eq!((game, roster), before);
}

#[test]
fn one_card_cannot_be_traded_twice() {
    let mut game = in_progress(1, TurnPhase::Reinforcement);
    let mut roster = three_players();
    roster.players[0].cards = vec![
        c(CardType::Infantry),
        c(CardType::Infantry),
        c(CardType::Cavalry),
        c(CardType::Artillery),
    ];
    let before = (game.clone(), roster.clone());
    assert_eq!(
        trade_cards(&mut game, &mut roster, &n(1), &n(200), vec![0, 0, 0]),
        Err(ErrorCode::InvalidCardSet)
    );
    assert_eq!(
        trade_cards(&mut game, &mut roster, &n(1), &n(200), vec![0, 1, 0]),
        Err(ErrorCode::InvalidCardSet)
    );
    assert_eq!((game, roster), before);
}

#[test]
fn cards_are_traded_in_the_reinforcement_phase_of_the_own_turn() {
    let mut roster = three_players();
    roster.players[0].cards =
        vec![c(CardType::Infantry), c(CardType::Infantry), c(CardType::Infantry)];
    let before = roster.clone();
    let mut game = in_progress(1, TurnPhase::Attack);
    assert_eq!(
        trade_cards(&mut game, &mut roster, &n(1), &n(200), vec![0, 1, 2]),
        Err(ErrorCode::InvalidPhase)
    );
    game.current_phase = TurnPhase::Fortification;
    assert_eq!(
        trade_cards(&mut game, &mut roster, &n(1), &n(200), vec![0, 1, 2]),
        Err(ErrorCode::InvalidPhase)
    );
    game.current_phase = TurnPhase::Reinforcement;
    game.current_player = n(2);
    assert_eq!(
        trade_cards(&mut game, &mut roster, &n(1), &n(200), vec![0, 1, 2]),
        Err(ErrorCode::NotPlayerTurn)
    );
    game.state = GameState::Setup;
    assert_eq!(
        trade_cards(&mut game, &mut roster, &n(1), &n(200), vec![0, 1, 2]),
        Err(ErrorCode::GameNotInProgress)
    );
    assert_eq!(roster, before);
    assert_eq!(game.cards_sets_turned_in, 0);
    assert_eq!(game.pending_reinforcements, None);
}

#[test]
fn a_trade_needs_the_player_on_the_roster_and_the_authority() {
    let mut roster = three_players();
    roster.players[0].cards =
        vec![c(CardType::Infantry), c(CardType::Infantry), c(CardType::Infantry)];
    let mut game = in_progress(1, TurnPhase::Reinforcement);
    let before = (game.clone(), roster.clone());
    assert_eq!(
        trade_cards(&mut game, &mut roster, &n(1), &n(1), vec![0, 1, 2]),
        Err(ErrorCode::InvalidAuthority)
    );
    assert_eq!((game.clone(), roster.clone()), before);
    game.current_player = n(8);
    assert_eq!(
        trade_cards(&mut game, &mut roster, &n(8), &n(200), vec![0, 1, 2]),
        Err(ErrorCode::PlayerNotFound)
    );
    assert_eq!(roster, before.1);
}

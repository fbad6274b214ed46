use risk_game::cards::{CardType, RiskCard};
use risk_game::connectivity::are_territories_connected;
use risk_game::identity::Identity;
use risk_game::player::{
    add_player, find_player, set_conquered_territory, update_player_cards, Player, PlayerColor,
    PlayerError, PlayerState,
};
use risk_game::territory::{
    get_continent_bonus, is_well_formed, update_territory, Continent, Territory, TerritoryError,
    TerritoryState,
};

fn who(n: u8) -> Identity {
    Identity::new([n; 32])
}

fn land(id: u8, owner: Option<Identity>, troops: u8, adjacent: Vec<u8>) -> Territory {
    Territory { id, continent_id: 0, owner, troops, adjacent_territories: adjacent }
}

fn small_map() -> TerritoryState {
    // 0 - 1 - 2, and 3 on its own
    let territories = vec![
        land(0, Some(who(1)), 5, vec![1]),
        land(1, Some(who(1)), 2, vec![0, 2]),
        land(2, Some(who(1)), 1, vec![1]),
        land(3, Some(who(1)), 4, vec![]),
    ];
    let continents = vec![
        Continent { id: 0, territories: vec![0, 1], bonus_armies: 2 },
        Continent { id: 1, territories: vec![2, 3], bonus_armies: 5 },
    ];
    risk_game::territory::initialize(territories, continents, who(100), who(200))
}

fn member(n: u8, color: PlayerColor) -> Player {
    Player { pubkey: who(n), color, cards: Vec::new(), conquered_territory_this_turn: false }
}

#[test]
fn identities_are_equal_when_their_bytes_are() {
    assert_eq!(who(7), who(7));
    assert_ne!(who(7), who(8));
    let mut bytes = [7u8; 32];
    bytes[31] = 8;
    assert_ne!(Identity::new(bytes), who(7));
    assert_eq!(Identity::new(bytes).bytes, bytes);
}

#[test]
fn an_identity_appends_its_bytes() {
    let mut out: Vec<u8> = vec![1, 2];
    who(9).append_to(&mut out);
    assert_eq!(out.len(), 34);
    assert_eq!(&out[..2], &[1, 2]);
    assert!(out[2..].iter().all(|b| *b == 9));
}

#[test]
fn the_territory_store_is_made_as_given() {
    let store = small_map();
    assert_eq!(store.territories.len(), 4);
    assert_eq!(store.continents.len(), 2);
    assert_eq!(store.game, who(100));
    assert_eq!(store.authority, who(200));
    assert_eq!(store.territories[1].adjacent_territories, vec![0, 2]);
}

#[test]
fn a_write_under_the_authority_sets_owner_and_troops() {
    let mut store = small_map();
    let before = store.clone();
    assert_eq!(update_territory(&mut store, &who(200), 2, Some(who(5)), 9), Ok(()));
    assert_eq!(store.territories[2].owner, Some(who(5)));
    assert_eq!(store.territories[2].troops, 9);
    assert_eq!(store.territories[2].adjacent_territories, vec![1]);
    assert_eq!(store.territories[0], before.territories[0]);
    assert_eq!(store.territories[1], before.territories[1]);
    assert_eq!(store.territories[3], before.territories[3]);
    assert_eq!(store.continents, before.continents);
    assert_eq!(update_territory(&mut store, &who(200), 2, None, 0), Ok(()));
    assert_eq!(store.territories[2].owner, None);
    assert_eq!(store.territories[2].troops, 0);
}

#[test]
fn a_write_under_another_credential_is_refused() {
    let mut store = small_map();
    let before = store.clone();
    assert_eq!(
        update_territory(&mut store, &who(201), 2, Some(who(5)), 9),
        Err(TerritoryError::InvalidAuthority)
    );
    assert_eq!(store, before);
}

#[test]
fn a_continent_has_its_bonus() {
    let store = small_map();
    assert_eq!(get_continent_bonus(&store, 0), 2);
    assert_eq!(get_continent_bonus(&store, 1), 5);
}

#[test]
fn a_map_that_names_its_own_territories_is_well_formed() {
    assert!(is_well_formed(&small_map()));
    let empty = risk_game::territory::initialize(Vec::new(), Vec::new(), who(1), who(2));
    assert!(is_well_formed(&empty));
}

#[test]
fn a_neighbour_off_the_map_is_not_well_formed() {
    let mut store = small_map();
    store.territories[3].adjacent_territories.push(4);
    assert!(!is_well_formed(&store));
}

#[test]
fn a_member_off_the_map_is_not_well_formed() {
    let mut store = small_map();
    store.continents[0].territories.push(200);
    assert!(!is_well_formed(&store));
}

#[test]
fn a_map_whose_bonuses_overflow_the_counter_is_not_well_formed() {
    let mut store = small_map();
    store.continents[0].bonus_armies = 250;
    assert_eq!(store.continents[1].bonus_armies, 5);
    // 3 + 250 + 5 is more than the counter holds
    assert!(!is_well_formed(&store));
    store.continents[0].bonus_armies = 247;
    // 3 + 247 + 5 just fits
    assert!(is_well_formed(&store));
    store.continents[0].bonus_armies = 248;
    assert!(!is_well_formed(&store));
}

#[test]
fn a_territory_is_connected_to_itself() {
    let store = small_map();
    assert!(are_territories_connected(&store, 0, 0, &who(1)));
    assert!(are_territories_connected(&store, 3, 3, &who(1)));
    assert!(are_territories_connected(&store, 3, 3, &who(9)));
}

#[test]
fn a_chain_of_own_territories_connects_its_ends() {
    let store = small_map();
    assert!(are_territories_connected(&store, 0, 2, &who(1)));
    assert!(are_territories_connected(&store, 2, 0, &who(1)));
    assert!(are_territories_connected(&store, 0, 1, &who(1)));
}

#[test]
fn an_isolated_territory_is_not_connected() {
    let store = small_map();
    assert!(!are_territories_connected(&store, 0, 3, &who(1)));
    assert!(!are_territories_connected(&store, 3, 0, &who(1)));
}

#[test]
fn a_foreign_territory_breaks_the_chain() {
    let mut store = small_map();
    store.territories[1].owner = Some(who(2));
    assert!(!are_territories_connected(&store, 0, 2, &who(1)));
    assert!(!are_territories_connected(&store, 0, 1, &who(1)));
    // the start may be held by anyone
    assert!(are_territories_connected(&store, 1, 2, &who(1)));
    assert!(are_territories_connected(&store, 1, 0, &who(1)));
}

#[test]
fn the_search_survives_cycles_and_repeated_neighbours() {
    let territories = vec![
        land(0, Some(who(1)), 1, vec![1, 2, 1, 0]),
        land(1, Some(who(1)), 1, vec![0, 2, 2]),
        land(2, Some(who(1)), 1, vec![0, 1, 3]),
        land(3, Some(who(1)), 1, vec![2, 4]),
        land(4, Some(who(1)), 1, vec![3]),
        land(5, Some(who(1)), 1, vec![]),
    ];
    let store = risk_game::territory::initialize(territories, Vec::new(), who(100), who(200));
    assert!(are_territories_connected(&store, 0, 4, &who(1)));
    assert!(are_territories_connected(&store, 4, 0, &who(1)));
    assert!(!are_territories_connected(&store, 0, 5, &who(1)));
}

#[test]
fn a_one_way_road_is_followed_one_way() {
    let territories = vec![land(0, Some(who(1)), 1, vec![1]), land(1, Some(who(1)), 1, vec![])];
    let store = risk_game::territory::initialize(territories, Vec::new(), who(100), who(200));
    assert!(are_territories_connected(&store, 0, 1, &who(1)));
    assert!(!are_territories_connected(&store, 1, 0, &who(1)));
}

#[test]
fn the_roster_starts_with_one_player() {
    let roster = risk_game::player::initialize(who(100), member(1, PlayerColor::Red), who(200));
    assert_eq!(roster.players, vec![member(1, PlayerColor::Red)]);
    assert_eq!(roster.game, who(100));
    assert_eq!(roster.authority, who(200));
}

#[test]
fn a_player_is_added_under_the_authority_only() {
    let mut roster = risk_game::player::initialize(who(100), member(1, PlayerColor::Red), who(200));
    assert_eq!(
        add_player(&mut roster, &who(1), member(2, PlayerColor::Blue)),
        Err(PlayerError::InvalidAuthority)
    );
    assert_eq!(roster.players.len(), 1);
    assert_eq!(add_player(&mut roster, &who(200), member(2, PlayerColor::Blue)), Ok(()));
    assert_eq!(roster.players, vec![member(1, PlayerColor::Red), member(2, PlayerColor::Blue)]);
}

#[test]
fn a_player_is_found_at_the_first_seat() {
    let mut roster = risk_game::player::initialize(who(100), member(1, PlayerColor::Red), who(200));
    assert_eq!(add_player(&mut roster, &who(200), member(2, PlayerColor::Blue)), Ok(()));
    assert_eq!(add_player(&mut roster, &who(200), member(2, PlayerColor::Green)), Ok(()));
    assert_eq!(find_player(&roster, &who(1)), Some(0));
    assert_eq!(find_player(&roster, &who(2)), Some(1));
    assert_eq!(find_player(&roster, &who(3)), None);
}

#[test]
fn a_hand_is_replaced_under_the_authority() {
    let mut roster = risk_game::player::initialize(who(100), member(1, PlayerColor::Red), who(200));
    assert_eq!(add_player(&mut roster, &who(200), member(2, PlayerColor::Blue)), Ok(()));
    let hand = vec![
        RiskCard { card_type: CardType::Wild, territory_id: None },
        RiskCard { card_type: CardType::Cavalry, territory_id: Some(3) },
    ];
    assert_eq!(update_player_cards(&mut roster, &who(200), who(2), hand.clone()), Ok(()));
    assert_eq!(roster.players[1].cards, hand);
    assert_eq!(roster.players[0], member(1, PlayerColor::Red));
    assert_eq!(update_player_cards(&mut roster, &who(200), who(2), Vec::new()), Ok(()));
    assert_eq!(roster.players[1], member(2, PlayerColor::Blue));
}

#[test]
fn a_hand_is_not_replaced_without_authority_or_player() {
    let mut roster = risk_game::player::initialize(who(100), member(1, PlayerColor::Red), who(200));
    let before = roster.clone();
    let hand = vec![RiskCard { card_type: CardType::Wild, territory_id: None }];
    assert_eq!(
        update_player_cards(&mut roster, &who(1), who(1), hand.clone()),
        Err(PlayerError::InvalidAuthority)
    );
    assert_eq!(
        update_player_cards(&mut roster, &who(200), who(9), hand.clone()),
        Err(PlayerError::PlayerNotFound)
    );
    // the credential is looked at before the roster is searched
    assert_eq!(
        update_player_cards(&mut roster, &who(1), who(9), hand),
        Err(PlayerError::InvalidAuthority)
    );
    assert_eq!(roster, before);
}

#[test]
fn the_conquest_mark_is_set_and_cleared() {
    let mut roster = risk_game::player::initialize(who(100), member(1, PlayerColor::Red), who(200));
    assert_eq!(set_conquered_territory(&mut roster, &who(200), who(1), true), Ok(()));
    assert!(roster.players[0].conquered_territory_this_turn);
    assert_eq!(set_conquered_territory(&mut roster, &who(200), who(1), false), Ok(()));
    assert!(!roster.players[0].conquered_territory_this_turn);
}

#[test]
fn the_conquest_mark_needs_authority_and_player() {
    let mut roster = risk_game::player::initialize(who(100), member(1, PlayerColor::Red), who(200));
    let before = roster.clone();
    assert_eq!(
        set_conquered_territory(&mut roster, &who(3), who(1), true),
        Err(PlayerError::InvalidAuthority)
    );
    assert_eq!(
        set_conquered_territory(&mut roster, &who(200), who(4), true),
        Err(PlayerError::PlayerNotFound)
    );
    assert_eq!(roster, before);
}

#[test]
fn a_wrong_credential_is_refused_whatever_territory_is_named() {
    let mut store = small_map();
    let before = store.clone();
    assert_eq!(
        update_territory(&mut store, &who(201), 200, Some(who(5)), 9),
        Err(TerritoryError::InvalidAuthority)
    );
    assert_eq!(
        update_territory(&mut store, &who(201), 4, None, 0),
        Err(TerritoryError::InvalidAuthority)
    );
    assert_eq!(store, before);
}

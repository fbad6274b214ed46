//! The card economy: kinds of cards, what makes three cards a set, and what a
//! redeemed set is worth.

use vstd::prelude::*;

verus! {

/// The kind of a card.
#[derive(Clone, Copy, Debug, PartialEq, Eq, Hash, Structural)]
pub enum CardType {
    Infantry,
    Cavalry,
    Artillery,
    Wild,
}

/// A card in a player's hand. The territory is carried along and plays no part
/// in the economy.
#[derive(Clone, Copy, Debug, PartialEq, Eq)]
pub struct RiskCard {
    pub card_type: CardType,
    pub territory_id: Option<u8>,
}

/// The largest hand a player can hold.
pub const HAND_LIMIT: usize = 5;

/// How many of `cards` are of kind `kind`.
pub open spec fn count_kind(cards: Seq<RiskCard>, kind: CardType) -> nat
    decreases cards.len(),
{
    if cards.len() == 0 {
        0
    } else {
        count_kind(cards.drop_last(), kind) + if cards.last().card_type == kind {
            1nat
        } else {
            0nat
        }
    }
}

/// How many of the three ordinary kinds occur among `cards`.
pub open spec fn distinct_plain_kinds(cards: Seq<RiskCard>) -> nat {
    (if count_kind(cards, CardType::Infantry) > 0 {
        1nat
    } else {
        0nat
    }) + (if count_kind(cards, CardType::Cavalry) > 0 {
        1nat
    } else {
        0nat
    }) + (if count_kind(cards, CardType::Artillery) > 0 {
        1nat
    } else {
        0nat
    })
}

/// Three cards form a set when they are all of one kind, or one of each
/// ordinary kind, or wild cards together with as many different ordinary kinds
/// as are needed to make three.
pub open spec fn valid_card_set(cards: Seq<RiskCard>) -> bool {
    &&& cards.len() == 3
    &&& {
        ||| exists|kind: CardType| count_kind(cards, kind) == 3
        ||| (distinct_plain_kinds(cards) == 3 && count_kind(cards, CardType::Wild) == 0)
        ||| (count_kind(cards, CardType::Wild) > 0 && count_kind(cards, CardType::Wild)
            + distinct_plain_kinds(cards) == 3)
    }
}

/// The armies granted for a set, by the number of sets redeemed before it.
pub open spec fn set_bonus(sets_turned_in: u8) -> u8 {
    if sets_turned_in == 0 {
        4
    } else if sets_turned_in == 1 {
        6
    } else if sets_turned_in == 2 {
        8
    } else if sets_turned_in == 3 {
        10
    } else if sets_turned_in == 4 {
        12
    } else {
        15
    }
}

/// The kind of card that a raw draw stands for.
pub open spec fn drawn_kind(draw: u8) -> CardType {
    if draw % 4 == 0 {
        CardType::Infantry
    } else if draw % 4 == 1 {
        CardType::Cavalry
    } else if draw % 4 == 2 {
        CardType::Artillery
    } else {
        CardType::Wild
    }
}

/// The card that a raw draw stands for. It names no territory.
pub open spec fn drawn_card(draw: u8) -> RiskCard {
    RiskCard { card_type: drawn_kind(draw), territory_id: None }
}

/// Whether `cards` can be redeemed together.
pub fn is_valid_card_set(cards: &[RiskCard]) -> (valid: bool)
    ensures
        valid == valid_card_set(cards@),
{
    if cards.len() != 3 {
        return false;
    }
    let mut infantry: usize = 0;
    let mut cavalry: usize = 0;
    let mut artillery: usize = 0;
    let mut wild: usize = 0;
    let mut i: usize = 0;
    while i < 3
        invariant
            i <= 3,
            cards@.len() == 3,
            infantry == count_kind(cards@.take(i as int), CardType::Infantry),
            cavalry == count_kind(cards@.take(i as int), CardType::Cavalry),
            artillery == count_kind(cards@.take(i as int), CardType::Artillery),
            wild == count_kind(cards@.take(i as int), CardType::Wild),
            infantry + cavalry + artillery + wild == i,
        decreases 3 - i,
    {
        proof {
            assert(cards@.take(i + 1).drop_last() == cards@.take(i as int));
        }
        match cards[i].card_type {
            CardType::Infantry => {
                infantry += 1;
            },
            CardType::Cavalry => {
                cavalry += 1;
            },
            CardType::Artillery => {
                artillery += 1;
            },
            CardType::Wild => {
                wild += 1;
            },
        }
        i += 1;
    }
    proof {
        assert(cards@.take(3) == cards@);
    }
    let mut plain: usize = 0;
    if infantry > 0 {
        plain += 1;
    }
    if cavalry > 0 {
        plain += 1;
    }
    if artillery > 0 {
        plain += 1;
    }
    let three_alike = infantry == 3 || cavalry == 3 || artillery == 3 || wild == 3;
    proof {
        if three_alike {
            let kind = if infantry == 3 {
                CardType::Infantry
            } else if cavalry == 3 {
                CardType::Cavalry
            } else if artillery == 3 {
                CardType::Artillery
            } else {
                CardType::Wild
            };
            assert(count_kind(cards@, kind) == 3);
        } else {
            assert forall|kind: CardType| count_kind(cards@, kind) != 3 by {
                match kind {
                    CardType::Infantry => {},
                    CardType::Cavalry => {},
                    CardType::Artillery => {},
                    CardType::Wild => {},
                }
            }
        }
    }
    three_alike || (plain == 3 && wild == 0) || (wild > 0 && wild + plain == 3)
}

/// The armies granted for the next set when `sets_turned_in` sets were redeemed
/// before it: 4, 6, 8, 10, 12, and 15 from the sixth set on.
pub fn bonus_for_set(sets_turned_in: u8) -> (armies: u8)
    ensures
        armies == set_bonus(sets_turned_in),
{
    match sets_turned_in {
        0 => 4,
        1 => 6,
        2 => 8,
        3 => 10,
        4 => 12,
        _ => 15,
    }
}

/// Makes the card that the raw draw `draw` stands for. The draw is reduced
/// modulo four to pick the kind; the card names no territory.
pub fn generate_risk_card(draw: u8) -> (card: RiskCard)
    ensures
        card == drawn_card(draw),
{
    let card_type = match draw % 4 {
        0 => CardType::Infantry,
        1 => CardType::Cavalry,
        2 => CardType::Artillery,
        _ => CardType::Wild,
    };
    RiskCard { card_type, territory_id: None }
}

} // verus!

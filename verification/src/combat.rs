//! Dice and the tally of losses.
//!
//! The engine draws no randomness of its own. Whoever runs it hands in raw
//! draws, one byte per die; a die shows the draw reduced modulo six, plus one.

use vstd::prelude::*;
use vstd::relations::{sorted_by, total_ordering};
use vstd::seq_lib::lemma_sorted_unique;

verus! {

/// The dice of one attack, each side's highest die first.
#[derive(Clone, Debug, PartialEq, Eq)]
pub struct AttackDice {
    pub attacker: Vec<u8>,
    pub defender: Vec<u8>,
}

/// What `AttackDice` holds, as sequences.
pub struct AttackDiceView {
    pub attacker: Seq<u8>,
    pub defender: Seq<u8>,
}

impl View for AttackDice {
    type V = AttackDiceView;

    open spec fn view(&self) -> AttackDiceView {
        AttackDiceView { attacker: self.attacker@, defender: self.defender@ }
    }
}

/// Raw draws for one attack: up to three dice for the attacker and up to two
/// for the defender. An attack reads as many from the front of each as it has
/// dice to roll.
#[derive(Clone, Copy, Debug)]
pub struct DiceEntropy {
    pub attacker: [u8; 3],
    pub defender: [u8; 2],
}

/// The face that a raw draw stands for, from 1 to 6.
pub open spec fn die_face(draw: u8) -> u8 {
    (draw % 6 + 1) as u8
}

/// The order in which dice are laid out: higher faces first.
pub open spec fn descending() -> spec_fn(u8, u8) -> bool {
    |a: u8, b: u8| a >= b
}

/// The faces that the draws stand for, before they are put in order.
pub open spec fn faces(draws: Seq<u8>) -> Seq<u8> {
    draws.map_values(|draw: u8| die_face(draw))
}

/// The dice rolled from `draws`: their faces, highest first.
pub open spec fn rolled(draws: Seq<u8>) -> Seq<u8> {
    faces(draws).sort_by(descending())
}

/// Of the first `pairs` pairs of dice, how many the attacker loses: those where
/// the attacker's die is not higher than the defender's.
pub open spec fn attacker_losses(attacker: Seq<u8>, defender: Seq<u8>, pairs: nat) -> nat
    decreases pairs,
{
    if pairs == 0 {
        0
    } else {
        attacker_losses(attacker, defender, (pairs - 1) as nat) + if attacker[pairs - 1]
            > defender[pairs - 1] {
            0nat
        } else {
            1nat
        }
    }
}

/// Of the first `pairs` pairs of dice, how many the defender loses: those where
/// the attacker's die is higher.
pub open spec fn defender_losses(attacker: Seq<u8>, defender: Seq<u8>, pairs: nat) -> nat
    decreases pairs,
{
    if pairs == 0 {
        0
    } else {
        defender_losses(attacker, defender, (pairs - 1) as nat) + if attacker[pairs - 1]
            > defender[pairs - 1] {
            1nat
        } else {
            0nat
        }
    }
}

/// How many pairs of dice are compared: as many as the shorter side has dice.
pub open spec fn compared_pairs(attacker: Seq<u8>, defender: Seq<u8>) -> nat {
    if attacker.len() <= defender.len() {
        attacker.len()
    } else {
        defender.len()
    }
}

/// Every compared pair costs exactly one side a troop.
pub proof fn lemma_losses_partition(attacker: Seq<u8>, defender: Seq<u8>, pairs: nat)
    ensures
        attacker_losses(attacker, defender, pairs) + defender_losses(attacker, defender, pairs)
            == pairs,
    decreases pairs,
{
    if pairs > 0 {
        lemma_losses_partition(attacker, defender, (pairs - 1) as nat);
    }
}

/// Laying dice out highest first is a total order on faces.
pub proof fn lemma_descending_is_total()
    ensures
        total_ordering(descending()),
{
}

/// Rolling keeps the number of dice, shows faces from 1 to 6 only, and lays them
/// out highest first.
pub proof fn lemma_rolled_dice(draws: Seq<u8>)
    ensures
        rolled(draws).len() == draws.len(),
        rolled(draws).to_multiset() == faces(draws).to_multiset(),
        forall|i: int| 0 <= i < draws.len() ==> 1 <= #[trigger] rolled(draws)[i] <= 6,
        forall|i: int, j: int|
            0 <= i < j < draws.len() ==> #[trigger] rolled(draws)[i] >= #[trigger] rolled(
                draws,
            )[j],
{
    broadcast use vstd::seq_lib::group_to_multiset_ensures;

    lemma_descending_is_total();
    let unsorted = faces(draws);
    let dice = rolled(draws);
    unsorted.lemma_sort_by_ensures(descending());
    assert(dice.len() == unsorted.len()) by {
        assert(dice.to_multiset().len() == unsorted.to_multiset().len());
    }
    assert forall|i: int| 0 <= i < draws.len() implies 1 <= #[trigger] dice[i] <= 6 by {
        assert(dice.to_multiset().count(dice[i]) > 0);
        assert(unsorted.to_multiset().count(dice[i]) > 0);
        assert(unsorted.contains(dice[i]));
        let k = choose|k: int| 0 <= k < unsorted.len() && unsorted[k] == dice[i];
        assert(unsorted[k] == die_face(draws[k]));
    }
    assert forall|i: int, j: int| 0 <= i < j < draws.len() implies #[trigger] dice[i]
        >= #[trigger] dice[j] by {
        assert(descending()(dice[i], dice[j]));
    }
}

/// Rolls one die for each raw draw and lays the dice out highest first.
pub fn roll_dice(draws: &[u8]) -> (dice: Vec<u8>)
    ensures
        dice@ == rolled(draws@),
{
    let mut dice: Vec<u8> = Vec::new();
    let mut i: usize = 0;
    proof {
        assert(faces(draws@.take(0)) == dice@);
    }
    while i < draws.len()
        invariant
            i <= draws@.len(),
            dice@.len() == i,
            sorted_by(dice@, descending()),
            dice@.to_multiset() == faces(draws@.take(i as int)).to_multiset(),
        decreases draws@.len() - i,
    {
        let face: u8 = draws[i] % 6 + 1;
        let mut at: usize = 0;
        while at < dice.len() && dice[at] >= face
            invariant
                at <= dice@.len(),
                forall|k: int| 0 <= k < at ==> dice@[k] >= face,
            decreases dice@.len() - at,
        {
            at += 1;
        }
        let ghost before = dice@;
        dice.insert(at, face);
        proof {
            broadcast use vstd::seq_lib::group_to_multiset_ensures;

            vstd::seq_lib::to_multiset_insert(before, at as int, face);
            let seen = faces(draws@.take(i as int));
            assert(faces(draws@.take(i + 1)) == seen.push(face));
            vstd::seq_lib::to_multiset_build(seen, face);
            assert forall|a: int, b: int| 0 <= a < b < dice@.len() implies #[trigger] descending()(
                dice@[a],
                dice@[b],
            ) by {
                if b < at {
                    assert(descending()(before[a], before[b]));
                } else if b == at {
                } else if a < at {
                    assert(descending()(before[a], before[b - 1]));
                } else if a == at {
                    if at < b - 1 {
                        assert(descending()(before[at as int], before[b - 1]));
                    }
                } else {
                    assert(descending()(before[a - 1], before[b - 1]));
                }
            }
        }
        i += 1;
    }
    proof {
        assert(draws@.take(draws@.len() as int) == draws@);
        lemma_descending_is_total();
        faces(draws@).lemma_sort_by_ensures(descending());
        lemma_sorted_unique(dice@, rolled(draws@), descending());
    }
    dice
}

/// Tallies the losses of one attack. The dice are compared pair by pair from
/// the front, over as many pairs as the shorter side has dice: where the
/// attacker's die is higher the defender loses a troop, otherwise the attacker
/// does, so a tie goes to the defender.
pub fn resolve_combat(attacker_dice: &[u8], defender_dice: &[u8]) -> (losses: (u8, u8))
    requires
        compared_pairs(attacker_dice@, defender_dice@) <= u8::MAX,
    ensures
        losses.0 == attacker_losses(
            attacker_dice@,
            defender_dice@,
            compared_pairs(attacker_dice@, defender_dice@),
        ),
        losses.1 == defender_losses(
            attacker_dice@,
            defender_dice@,
            compared_pairs(attacker_dice@, defender_dice@),
        ),
        losses.0 + losses.1 == compared_pairs(attacker_dice@, defender_dice@),
{
    let pairs: usize = if attacker_dice.len() <= defender_dice.len() {
        attacker_dice.len()
    } else {
        defender_dice.len()
    };
    let mut attacker_lost: u8 = 0;
    let mut defender_lost: u8 = 0;
    let mut i: usize = 0;
    while i < pairs
        invariant
            i <= pairs,
            pairs == compared_pairs(attacker_dice@, defender_dice@),
            pairs <= u8::MAX,
            attacker_lost == attacker_losses(attacker_dice@, defender_dice@, i as nat),
            defender_lost == defender_losses(attacker_dice@, defender_dice@, i as nat),
            attacker_lost + defender_lost == i,
        decreases pairs - i,
    {
        if attacker_dice[i] > defender_dice[i] {
            defender_lost += 1;
        } else {
            attacker_lost += 1;
        }
        i += 1;
    }
    (attacker_lost, defender_lost)
}

} // verus!

//! A player's cards: the draw pile, the graveyard, the exile, and the pristine
//! copy of every card the deck was built from.
use vstd::prelude::*;
use rand::seq::SliceRandom;
use crate::card::{owned_by, Card, CardType, is_land, same_card, same_cards};

verus! {

/// The piles of a player's cards, and the pristine card of each id.
pub struct Deck {
    pub draw_pile: Vec<Card>,
    pub discard_pile: Vec<Card>,
    pub graveyard: Vec<Card>,
    pub in_game: Vec<Card>,
    pub exiled: Vec<Card>,
    pub map: Vec<Card>,
}

/// The position of the last card with the given id, which is the one a map
/// filled in order keeps for that id.
pub open spec fn last_with_id(cards: Seq<Card>, id: Seq<char>) -> Option<int>
    decreases cards.len(),
{
    if cards.len() == 0 {
        None
    } else if cards.last().id@ == id {
        Some(cards.len() - 1)
    } else {
        last_with_id(cards.drop_last(), id)
    }
}

pub proof fn lemma_last_with_id(cards: Seq<Card>, id: Seq<char>)
    ensures
        match last_with_id(cards, id) {
            Some(i) => 0 <= i < cards.len() && cards[i].id@ == id
                && forall|j: int| i < j < cards.len() ==> cards[j].id@ != id,
            None => forall|j: int| 0 <= j < cards.len() ==> cards[j].id@ != id,
        },
    decreases cards.len(),
{
    if cards.len() > 0 {
        lemma_last_with_id(cards.drop_last(), id);
        assert forall|j: int| 0 <= j < cards.len() - 1 implies cards[j] == cards.drop_last()[j] by {}
    }
}

/// The draw pile holds a land among its top seven cards.
pub open spec fn top_seven_has_land(pile: Seq<Card>) -> bool {
    exists|i: int| pile.len() - 7 <= i < pile.len() && 0 <= i && is_land(#[trigger] pile[i].card_type)
}

/// A copy of a list of cards.
pub fn copy_cards(cards: &Vec<Card>) -> (r: Vec<Card>)
    ensures
        same_cards(r@, cards@),
{
    let mut r: Vec<Card> = Vec::new();
    let mut i: usize = 0;
    while i < cards.len()
        invariant
            i <= cards@.len(),
            r@.len() == i,
            forall|j: int| 0 <= j < i ==> same_card(#[trigger] r@[j], cards@[j]),
        decreases cards@.len() - i,
    {
        r.push(cards[i].copy());
        i = i + 1;
    }
    r
}

/// A shuffle of the cards, as `rand::seq::SliceRandom::shuffle` with the
/// thread-local generator gives it: the same cards in an order chosen at random.
#[verifier::external_body]
fn shuffle_cards(cards: &mut Vec<Card>)
    ensures
        final(cards)@.to_multiset() == old(cards)@.to_multiset(),
{
    cards.shuffle(&mut rand::thread_rng());
}

/// `d1` is the deck `d0` after a draw that gave `c`: the top card of the
/// draw pile, or, when the draw pile is empty, a card of the discard pile,
/// whose other cards become the draw pile; the card drawn is noted last
/// among the cards in game. Nothing is drawn only when both piles are empty.
pub open spec fn deck_drew(d0: Deck, d1: Deck, c: Option<Card>) -> bool {
    &&& d1 == (Deck { draw_pile: d1.draw_pile, discard_pile: d1.discard_pile, in_game: d1.in_game, ..d0 })
    &&& if d0.draw_pile@.len() == 0 && d0.discard_pile@.len() == 0 {
        c is None && d1.draw_pile@ == d0.draw_pile@ && d1.discard_pile == d0.discard_pile && d1.in_game == d0.in_game
    } else {
        &&& c is Some
        &&& if d0.draw_pile@.len() > 0 {
            &&& c.unwrap() == d0.draw_pile@.last()
            &&& d1.draw_pile@ == d0.draw_pile@.drop_last()
            &&& d1.discard_pile == d0.discard_pile
        } else {
            &&& d1.draw_pile@.push(c.unwrap()).to_multiset() == d0.discard_pile@.to_multiset()
            &&& d1.discard_pile@.len() == 0
        }
        &&& d1.in_game@.len() == d0.in_game@.len() + 1
        &&& d1.in_game@.drop_last() == d0.in_game@
        &&& same_card(d1.in_game@.last(), c.unwrap())
    }
}

impl Deck {
    /// A deck whose draw pile is the given cards, with a pristine copy of each.
    pub fn new(cards: Vec<Card>) -> (d: Self)
        ensures
            d.draw_pile@ == cards@,
            same_cards(d.map@, cards@),
            d.discard_pile@.len() == 0,
            d.graveyard@.len() == 0,
            d.in_game@.len() == 0,
            d.exiled@.len() == 0,
    {
        let map = copy_cards(&cards);
        Deck {
            draw_pile: cards,
            discard_pile: Vec::new(),
            graveyard: Vec::new(),
            in_game: Vec::new(),
            exiled: Vec::new(),
            map,
        }
    }

    /// Shuffles the draw pile.
    pub fn shuffle(&mut self)
        ensures
            final(self).draw_pile@.to_multiset() == old(self).draw_pile@.to_multiset(),
            final(self).discard_pile == old(self).discard_pile,
            final(self).graveyard == old(self).graveyard,
            final(self).in_game == old(self).in_game,
            final(self).exiled == old(self).exiled,
            final(self).map == old(self).map,
    {
        shuffle_cards(&mut self.draw_pile);
    }

    /// Whether the draw pile holds a basic land, which makes the first shuffle
    /// look for a land among the top seven cards.
    pub fn has_basic_land(&self) -> (b: bool)
        ensures
            b == exists|i: int| 0 <= i < self.draw_pile@.len() && (#[trigger] self.draw_pile@[i]).card_type is BasicLand,
    {
        let mut i: usize = 0;
        while i < self.draw_pile.len()
            invariant
                i <= self.draw_pile@.len(),
                forall|j: int| 0 <= j < i ==> !((#[trigger] self.draw_pile@[j]).card_type is BasicLand),
            decreases self.draw_pile@.len() - i,
        {
            if let CardType::BasicLand(_) = self.draw_pile[i].card_type {
                return true;
            }
            i = i + 1;
        }
        false
    }

    /// Whether a land lies among the top seven cards of the draw pile.
    pub fn top_seven_has_land(&self) -> (b: bool)
        requires
            self.draw_pile@.len() >= 7,
        ensures
            b == top_seven_has_land(self.draw_pile@),
    {
        let n = self.draw_pile.len();
        let mut i: usize = n - 7;
        while i < n
            invariant
                n == self.draw_pile@.len(),
                n - 7 <= i <= n,
                forall|j: int| n - 7 <= j < i ==> !is_land((#[trigger] self.draw_pile@[j]).card_type),
            decreases n - i,
        {
            if !self.draw_pile[i].card_type.is_spell() {
                return true;
            }
            i = i + 1;
        }
        false
    }

    /// Draws the top card of the draw pile and notes it as in the game; when
    /// the draw pile has run out, the discard pile is first shuffled back in
    /// as the new draw pile.
    pub fn draw(&mut self) -> (c: Option<Card>)
        ensures
            deck_drew(*old(self), *final(self), c),
    {
        let ghost d0 = *self;
        if self.draw_pile.len() == 0 && self.discard_pile.len() > 0 {
            self.draw_pile.append(&mut self.discard_pile);
            proof {
                assert(self.draw_pile@ =~= d0.discard_pile@);
            }
            shuffle_cards(&mut self.draw_pile);
            proof {
                vstd::seq_lib::to_multiset_len(self.draw_pile@);
                vstd::seq_lib::to_multiset_len(d0.discard_pile@);
            }
        }
        let ghost pile = self.draw_pile@;
        match self.draw_pile.pop() {
            Some(card) => {
                let ghost g = self.in_game@;
                self.in_game.push(card.copy());
                proof {
                    assert(self.in_game@.drop_last() =~= g);
                    assert(self.draw_pile@ =~= pile.drop_last());
                    assert(self.draw_pile@.push(card) =~= pile);
                }
                Some(card)
            },
            None => None,
        }
    }

    /// A pristine copy of the card with the given id, if the deck has one.
    pub fn fresh(&self, id: &String) -> (c: Option<Card>)
        ensures
            match last_with_id(self.map@, id@) {
                Some(i) => c matches Some(card) && same_card(card, self.map@[i]),
                None => c.is_none(),
            },
    {
        let mut i: usize = self.map.len();
        assert(self.map@.subrange(0, i as int) =~= self.map@);
        while i > 0
            invariant
                i <= self.map@.len(),
                last_with_id(self.map@, id@) == last_with_id(self.map@.subrange(0, i as int), id@),
            decreases i,
        {
            proof {
                assert(self.map@.subrange(0, i as int).drop_last() =~= self.map@.subrange(0, i as int - 1));
            }
            if self.map[i - 1].id == *id {
                return Some(self.map[i - 1].copy());
            }
            i = i - 1;
        }
        None
    }

    /// Puts a pristine copy of the card with the given id into the graveyard.
    pub fn destroy(&mut self, id: String)
        ensures
            deck_gained(*old(self), *final(self), id@, DeckPile::Graveyard),
    {
        match self.fresh(&id) {
            Some(card) => {
                let ghost g = self.graveyard@;
                self.graveyard.push(card);
                assert(self.graveyard@.drop_last() =~= g);
            },
            None => {},
        }
    }

    /// Puts a pristine copy of the card with the given id into exile.
    pub fn exile(&mut self, id: String)
        ensures
            deck_gained(*old(self), *final(self), id@, DeckPile::Exiled),
    {
        match self.fresh(&id) {
            Some(card) => {
                let ghost g = self.exiled@;
                self.exiled.push(card);
                assert(self.exiled@.drop_last() =~= g);
            },
            None => {},
        }
    }

    /// Notes a card as in the game.
    pub fn elsewhere(&mut self, card: Card)
        ensures
            final(self).in_game@ == old(self).in_game@.push(card),
            final(self).draw_pile == old(self).draw_pile,
            final(self).discard_pile == old(self).discard_pile,
            final(self).graveyard == old(self).graveyard,
            final(self).exiled == old(self).exiled,
            final(self).map == old(self).map,
    {
        self.in_game.push(card);
    }

    /// Records the given player as the owner of every card of the deck.
    pub fn set_owner(&mut self, player: &String)
        ensures
            final(self).map@.len() == old(self).map@.len(),
            final(self).draw_pile@.len() == old(self).draw_pile@.len(),
            forall|i: int| 0 <= i < old(self).map@.len() ==>
                same_card(#[trigger] final(self).map@[i], Card { owner: final(self).map@[i].owner, ..old(self).map@[i] })
                && owned_by(final(self).map@[i], player@),
            forall|i: int| 0 <= i < old(self).draw_pile@.len() ==>
                same_card(#[trigger] final(self).draw_pile@[i], Card { owner: final(self).draw_pile@[i].owner, ..old(self).draw_pile@[i] })
                && owned_by(final(self).draw_pile@[i], player@),
            final(self).discard_pile == old(self).discard_pile,
            final(self).graveyard == old(self).graveyard,
            final(self).in_game == old(self).in_game,
            final(self).exiled == old(self).exiled,
    {
        set_owner_of(&mut self.map, player);
        set_owner_of(&mut self.draw_pile, player);
    }
}

fn set_owner_of(cards: &mut Vec<Card>, player: &String)
    ensures
        final(cards)@.len() == old(cards)@.len(),
        forall|i: int| 0 <= i < old(cards)@.len() ==>
            same_card(#[trigger] final(cards)@[i], Card { owner: final(cards)@[i].owner, ..old(cards)@[i] })
            && owned_by(final(cards)@[i], player@),
{
    let mut i: usize = 0;
    while i < cards.len()
        invariant
            i <= cards@.len(),
            cards@.len() == old(cards)@.len(),
            forall|j: int| i <= j < cards@.len() ==> #[trigger] cards@[j] == old(cards)@[j],
            forall|j: int| 0 <= j < i ==>
                same_card(#[trigger] cards@[j], Card { owner: cards@[j].owner, ..old(cards)@[j] })
                && owned_by(cards@[j], player@),
        decreases cards@.len() - i,
    {
        let mut c = cards[i].copy();
        c.owner = Some(player.clone());
        cards.set(i, c);
        i = i + 1;
    }
}

/// The piles a deck can put a fresh copy into.
#[derive(Debug, Clone, Copy, PartialEq, Eq, Structural)]
pub enum DeckPile {
    Graveyard,
    Exiled,
}

/// The deck `d2` is `d1` with a pristine copy of the card of the given id added
/// to the given pile, when the deck knows that id, and otherwise unchanged.
pub open spec fn deck_gained(d1: Deck, d2: Deck, id: Seq<char>, pile: DeckPile) -> bool {
    &&& d2.draw_pile == d1.draw_pile
    &&& d2.discard_pile == d1.discard_pile
    &&& d2.in_game == d1.in_game
    &&& d2.map == d1.map
    &&& match pile {
        DeckPile::Graveyard => d2.exiled == d1.exiled,
        DeckPile::Exiled => d2.graveyard == d1.graveyard,
    }
    &&& {
        let (p1, p2) = match pile {
            DeckPile::Graveyard => (d1.graveyard@, d2.graveyard@),
            DeckPile::Exiled => (d1.exiled@, d2.exiled@),
        };
        match last_with_id(d1.map@, id) {
            Some(i) => p2.len() == p1.len() + 1 && p2.drop_last() == p1 && same_card(p2.last(), d1.map@[i]),
            None => p2 == p1,
        }
    }
}

} // verus!

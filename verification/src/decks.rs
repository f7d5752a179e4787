//! The ready-made decks a player can pick in a lobby, and the cards they are
//! made of.
use vstd::prelude::*;
use crate::action::{same_trigger, ActionBuilder, ActionTriggerType, CardAction, CardActionTrigger, CardRequiredTarget, CounterSpellAction, GenerateManaAction, PhaseTarget, PlayerActionTarget};
use crate::card::{Card, CardBuilder, CardPhase, CardType, CreatureType, same_card};
use crate::deck::Deck;
use crate::lobby::DeckSelector;
use crate::mana::ManaType;
use crate::text::{decimal, push_decimal};

verus! {

/// The id of copy `i` of a card: the card's name, the copy's number and the
/// original id, joined by hyphens.
pub open spec fn copy_id(name: Seq<char>, i: nat, id: Seq<char>) -> Seq<char> {
    name + seq!['-'] + decimal(i) + seq!['-'] + id
}

/// The id of copy `i` of a trigger of a card named `name`: the name, the
/// copy's number and a fresh ULID, joined by hyphens.
pub open spec fn trigger_copy_id(name: Seq<char>, i: nat, id: Seq<char>) -> bool {
    &&& id.len() == name.len() + 1 + decimal(i).len() + 1 + 26
    &&& id.subrange(0, (name.len() + 1 + decimal(i).len() + 1) as int) == name + seq!['-'] + decimal(i) + seq!['-']
}

/// `c` is copy `i` of `base`: the same card but for its id and the ids of its
/// triggers, which name the card and the copy and end in a fresh ULID.
pub open spec fn is_copy(c: Card, base: Card, i: nat) -> bool {
    &&& same_card(Card { id: base.id, triggers: base.triggers, ..c }, base)
    &&& c.id@ == copy_id(base.name@, i, base.id@)
    &&& c.triggers@.len() == base.triggers@.len()
    &&& forall|k: int| 0 <= k < c.triggers@.len() ==> {
        &&& same_trigger(CardActionTrigger { id: base.triggers@[k].id, ..#[trigger] c.triggers@[k] }, base.triggers@[k])
        &&& trigger_copy_id(base.name@, i, c.triggers@[k].id@)
    }
}

/// `count` copies of the card, each with ids of its own.
pub fn duplicate_card(base_card: Card, count: usize) -> (cards: Vec<Card>)
    ensures
        cards@.len() == count,
        forall|i: int| 0 <= i < count ==> is_copy(#[trigger] cards@[i], base_card, i as nat),
{
    proof {
        reveal_strlit("-");
    }
    let mut cards: Vec<Card> = Vec::new();
    let mut i: usize = 0;
    while i < count
        invariant
            i <= count,
            cards@.len() == i,
            forall|j: int| 0 <= j < i ==> is_copy(#[trigger] cards@[j], base_card, j as nat),
        decreases count - i,
    {
        proof {
            reveal_strlit("-");
        }
        let mut prefix = base_card.name.clone();
        prefix.append("-");
        push_decimal(&mut prefix, i as u64);
        prefix.append("-");
        let mut triggers: Vec<CardActionTrigger> = Vec::new();
        let mut k: usize = 0;
        while k < base_card.triggers.len()
            invariant
                k <= base_card.triggers@.len(),
                triggers@.len() == k,
                prefix@ == base_card.name@ + seq!['-'] + decimal(i as nat) + seq!['-'],
                forall|t: int| 0 <= t < k ==> {
                    &&& same_trigger(CardActionTrigger { id: base_card.triggers@[t].id, ..#[trigger] triggers@[t] }, base_card.triggers@[t])
                    &&& trigger_copy_id(base_card.name@, i as nat, triggers@[t].id@)
                },
            decreases base_card.triggers@.len() - k,
        {
            let mut id = prefix.clone();
            let fresh = crate::rng::new_ulid();
            id.append(&fresh);
            let mut trigger = base_card.triggers[k].copy();
            trigger.id = id;
            proof {
                assert(trigger.id@.subrange(0, prefix@.len() as int) =~= prefix@);
            }
            triggers.push(trigger);
            k = k + 1;
        }
        let mut card_id = prefix;
        card_id.append(&base_card.id);
        let mut card = base_card.copy();
        card.id = card_id;
        card.triggers = triggers;
        proof {
            assert(card.id@ =~= copy_id(base_card.name@, i as nat, base_card.id@));
        }
        cards.push(card);
        i = i + 1;
    }
    cards
}

/// A plains that adds eleven white mana when tapped.
pub fn create_test_plains() -> (c: Card)
    ensures
        c.name@ == "Plains"@,
        c.description@.len() == 0,
        c.card_type == CardType::BasicLand(ManaType::White),
        c.cost@.len() == 0,
        c.triggers@.len() == 1,
        c.triggers@[0].trigger_type matches ActionTriggerType::AbilityWithinPhases(d, m, None, true, CardRequiredTarget::NoTarget)
            && d@ == "Adds {W} white mana to your pool."@ && m@.len() == 0,
        c.triggers@[0].action matches CardAction::GenerateMana(g)
            && g.mana_to_add@ == Seq::new(11, |i: int| ManaType::White) && g.target == PlayerActionTarget::Owner,
{
    proof {
        reveal_strlit("");
    }
    let mut mana: Vec<ManaType> = Vec::new();
    let mut i: usize = 0;
    while i < 11
        invariant
            i <= 11,
            mana@ == Seq::new(i as nat, |k: int| ManaType::White),
        decreases 11 - i,
    {
        mana.push(ManaType::White);
        i = i + 1;
        proof {
            assert(mana@ =~= Seq::new(i as nat, |k: int| ManaType::White));
        }
    }
    CardBuilder::new()
        .name("Plains")
        .description("")
        .card_type(CardType::BasicLand(ManaType::White))
        .add_action(
            ActionBuilder::new(ActionTriggerType::AbilityWithinPhases(
                "Adds {W} white mana to your pool.".to_string(),
                Vec::new(),
                None,
                true,
                CardRequiredTarget::NoTarget,
            ))
            .action(CardAction::GenerateMana(GenerateManaAction { mana_to_add: mana, target: PlayerActionTarget::Owner })),
        )
        .build()
}

/// An instant that counters the spell it is cast on.
pub fn create_counterspell() -> (c: Card)
    ensures
        c.name@ == "Counter Spell"@,
        c.description@ == "Counter target spell"@,
        c.card_type == CardType::Instant,
        c.cost@.len() == 0,
        c.triggers@.len() == 1,
        c.triggers@[0].trigger_type == ActionTriggerType::CardEnteredBattlefield,
        c.triggers@[0].action == CardAction::CounterSpell(CounterSpellAction {}),
{
    CardBuilder::new()
        .name("Counter Spell")
        .description("Counter target spell")
        .add_action(ActionBuilder::new(ActionTriggerType::CardEnteredBattlefield).action(CardAction::CounterSpell(CounterSpellAction {})))
        .card_type(CardType::Instant)
        .build()
}

/// An enchantment that, entering, exiles a creature of an opponent's.
pub fn create_ossification() -> (c: Card)
    ensures
        c.name@ == "Ossification"@,
        c.card_type == CardType::Enchantment,
        c.cost@ == seq![ManaType::Colorless, ManaType::White],
        c.current_phase == CardPhase::Ready,
        c.triggers@.len() == 1,
        c.triggers@[0].trigger_type == ActionTriggerType::CardEnteredBattlefield,
        c.triggers@[0].action matches CardAction::Script(name) && name@ == "ossification_enters"@,
{
    let mut cost: Vec<ManaType> = Vec::new();
    cost.push(ManaType::Colorless);
    cost.push(ManaType::White);
    assert(cost@ =~= seq![ManaType::Colorless, ManaType::White]);
    CardBuilder::new()
        .name("Ossification")
        .description("Enchant basic land you control\nWhen Ossification enters, exile target creature or planeswalker an opponent controls until Ossification leaves the battlefield.")
        .add_action(ActionBuilder::new(ActionTriggerType::CardEnteredBattlefield).closure_action("ossification_enters"))
        .mana_cost(cost)
        .card_type(CardType::Enchantment)
        .phase(CardPhase::Ready)
        .build()
}

/// A 1/3 angel whose owner gains two life when it enters.
pub fn create_skyclave_cleric() -> (c: Card)
    ensures
        c.name@ == "Skyclave Cleric"@,
        c.description@ == "When Skyclave Cleric enters, you gain 2 life."@,
        c.card_type == CardType::Creature,
        c.cost@ == seq![ManaType::Colorless, ManaType::White],
        c.triggers@.len() == 3,
        c.triggers@[2].trigger_type == ActionTriggerType::CardEnteredBattlefield,
        c.triggers@[2].action matches CardAction::Script(name) && name@ == "gain_two_life"@,
{
    let mut cost: Vec<ManaType> = Vec::new();
    cost.push(ManaType::Colorless);
    cost.push(ManaType::White);
    assert(cost@ =~= seq![ManaType::Colorless, ManaType::White]);
    CardBuilder::new()
        .name("Skyclave Cleric")
        .description("When Skyclave Cleric enters, you gain 2 life.")
        .creature_of_type(1, 3, CreatureType::Angel)
        .mana_cost(cost)
        .add_action(ActionBuilder::new(ActionTriggerType::CardEnteredBattlefield).closure_action("gain_two_life"))
        .build()
}

/// A 1/1 angel whose owner gains a life whenever another creature of theirs
/// enters.
pub fn create_lunarch_veteran() -> (c: Card)
    ensures
        c.name@ == "Lunarch Veteran"@,
        c.description@ == "Whenever another creature you control enters, you gain 1 life."@,
        c.card_type == CardType::Creature,
        c.cost@ == seq![ManaType::White],
        c.triggers@.len() == 3,
        c.triggers@[2].trigger_type == ActionTriggerType::OtherCardPlayed(PhaseTarget::Owner),
        c.triggers@[2].action matches CardAction::Script(name) && name@ == "gain_one_life_for_creature"@,
{
    let mut cost: Vec<ManaType> = Vec::new();
    cost.push(ManaType::White);
    assert(cost@ =~= seq![ManaType::White]);
    CardBuilder::new()
        .name("Lunarch Veteran")
        .creature_of_type(1, 1, CreatureType::Angel)
        .description("Whenever another creature you control enters, you gain 1 life.")
        .mana_cost(cost)
        .add_action(ActionBuilder::new(ActionTriggerType::OtherCardPlayed(PhaseTarget::Owner)).closure_action("gain_one_life_for_creature"))
        .build()
}

/// The cards' names, in order.
pub open spec fn names(cards: Seq<Card>) -> Seq<Seq<char>> {
    cards.map_values(|c: Card| c.name@)
}

/// Appends the cards of `more` to `deck`.
fn append_cards(deck: &mut Vec<Card>, more: Vec<Card>)
    ensures
        final(deck)@ == old(deck)@ + more@,
{
    let mut more = more;
    deck.append(&mut more);
}

/// Copies of cards whose names start differently, or copies of one card
/// with different numbers below ten, have different ids.
pub proof fn lemma_copy_ids_differ(n1: Seq<char>, i: nat, x: Seq<char>, n2: Seq<char>, j: nat, y: Seq<char>)
    requires
        n1.len() > 0,
        n2.len() > 0,
        i < 10,
        j < 10,
        n1[0] != n2[0] || (n1 == n2 && i != j),
    ensures
        copy_id(n1, i, x) != copy_id(n2, j, y),
{
    if n1[0] != n2[0] {
        assert(copy_id(n1, i, x)[0] == n1[0]);
        assert(copy_id(n2, j, y)[0] == n2[0]);
    } else {
        let at = n1.len() as int + 1;
        assert(decimal(i) == seq![crate::text::digit_char(i)]);
        assert(decimal(j) == seq![crate::text::digit_char(j)]);
        assert(copy_id(n1, i, x)[at] == crate::text::digit_char(i));
        assert(copy_id(n2, j, y)[at] == crate::text::digit_char(j));
    }
}

/// The block of the angels deck a place falls in, and where that block starts.
pub open spec fn angels_block(a: int) -> int {
    if a < 1 { 0 } else if a < 3 { 1 } else if a < 7 { 2 } else if a < 11 { 3 } else { 4 }
}

/// Where each block of the angels deck starts.
pub open spec fn angels_offset(b: int) -> int {
    if b == 0 { 0 } else if b == 1 { 1 } else if b == 2 { 3 } else if b == 3 { 7 } else { 11 }
}

/// The angels deck: a plains, two Skyclave Clerics, four Ossifications, four
/// Counter Spells and two Lunarch Veterans, each a copy with an id of its
/// own, no two ids alike.
pub fn create_angels_deck() -> (deck: Vec<Card>)
    ensures
        deck@.len() == 13,
        names(deck@) == seq!["Plains"@]
            + Seq::new(2, |i: int| "Skyclave Cleric"@)
            + Seq::new(4, |i: int| "Ossification"@)
            + Seq::new(4, |i: int| "Counter Spell"@)
            + Seq::new(2, |i: int| "Lunarch Veteran"@),
        forall|a: int, b: int| 0 <= a < b < deck@.len() ==> (#[trigger] deck@[a]).id@ != (#[trigger] deck@[b]).id@,
{
    let p = create_test_plains();
    let s = create_skyclave_cleric();
    let o = create_ossification();
    let c = create_counterspell();
    let l = create_lunarch_veteran();
    let ghost bases = seq![p, s, o, c, l];
    let b0 = duplicate_card(p, 1);
    let b1 = duplicate_card(s, 2);
    let b2 = duplicate_card(o, 4);
    let b3 = duplicate_card(c, 4);
    let b4 = duplicate_card(l, 2);
    let ghost blocks = seq![b0@, b1@, b2@, b3@, b4@];
    let mut deck: Vec<Card> = Vec::new();
    append_cards(&mut deck, b0);
    append_cards(&mut deck, b1);
    append_cards(&mut deck, b2);
    append_cards(&mut deck, b3);
    append_cards(&mut deck, b4);
    proof {
        reveal_strlit("Plains");
        reveal_strlit("Skyclave Cleric");
        reveal_strlit("Ossification");
        reveal_strlit("Counter Spell");
        reveal_strlit("Lunarch Veteran");
        assert(deck@ =~= blocks[0] + blocks[1] + blocks[2] + blocks[3] + blocks[4]);
        assert forall|a: int| 0 <= a < 13 implies {
            let bk = angels_block(a);
            let i = a - angels_offset(bk);
            &&& 0 <= i < blocks[bk].len()
            &&& #[trigger] deck@[a] == blocks[bk][i]
            &&& is_copy(blocks[bk][i], bases[bk], i as nat)
        } by {
            let bk = angels_block(a);
            let i = a - angels_offset(bk);
            assert(deck@[a] == blocks[bk][i]);
        }
        assert forall|a: int| 0 <= a < 13 implies #[trigger] deck@[a].name@ == bases[angels_block(a)].name@ by {
            let bk = angels_block(a);
            let i = a - angels_offset(bk);
            assert(is_copy(blocks[bk][i], bases[bk], i as nat));
        }
        assert(names(deck@) =~= seq!["Plains"@]
            + Seq::new(2, |i: int| "Skyclave Cleric"@)
            + Seq::new(4, |i: int| "Ossification"@)
            + Seq::new(4, |i: int| "Counter Spell"@)
            + Seq::new(2, |i: int| "Lunarch Veteran"@));
        assert forall|a: int, b: int| 0 <= a < b < deck@.len() implies (#[trigger] deck@[a]).id@ != (#[trigger] deck@[b]).id@ by {
            let ba = angels_block(a);
            let bb = angels_block(b);
            let ia = a - angels_offset(ba);
            let ib = b - angels_offset(bb);
            assert(is_copy(blocks[ba][ia], bases[ba], ia as nat));
            assert(is_copy(blocks[bb][ib], bases[bb], ib as nat));
            assert(bases[ba].name@.len() > 0 && bases[bb].name@.len() > 0);
            if ba != bb {
                assert(bases[ba].name@[0] != bases[bb].name@[0]);
            }
            lemma_copy_ids_differ(bases[ba].name@, ia as nat, bases[ba].id@, bases[bb].name@, ib as nat, bases[bb].id@);
        }
    }
    deck
}

/// The angels deck with blue: two Ossifications and a plains.
pub fn create_angels_blue_deck() -> (deck: Vec<Card>)
    ensures
        deck@.len() == 3,
        names(deck@) == Seq::new(2, |i: int| "Ossification"@) + seq!["Plains"@],
{
    let mut deck: Vec<Card> = Vec::new();
    append_cards(&mut deck, duplicate_card(create_ossification(), 2));
    append_cards(&mut deck, duplicate_card(create_test_plains(), 1));
    assert(names(deck@) =~= Seq::new(2, |i: int| "Ossification"@) + seq!["Plains"@]);
    deck
}

/// The cards are those of the chosen deck, by name and in order.
pub open spec fn selected(selection: DeckSelector, cards: Seq<Card>) -> bool {
    match selection {
        DeckSelector::Angels => cards.len() == 13 && names(cards) == seq!["Plains"@]
            + Seq::new(2, |i: int| "Skyclave Cleric"@)
            + Seq::new(4, |i: int| "Ossification"@)
            + Seq::new(4, |i: int| "Counter Spell"@)
            + Seq::new(2, |i: int| "Lunarch Veteran"@),
    }
}

impl Deck {
    /// The cards of the chosen deck.
    pub fn cards_from_selection(selection: &DeckSelector) -> (cards: Vec<Card>)
        ensures
            selected(*selection, cards@),
    {
        match selection {
            DeckSelector::Angels => create_angels_deck(),
        }
    }

    /// A deck of the chosen cards.
    pub fn new_from_selection(selection: &DeckSelector) -> (d: Deck)
        ensures
            match selection {
                DeckSelector::Angels => d.draw_pile@.len() == 13 && names(d.draw_pile@) == seq!["Plains"@]
                    + Seq::new(2, |i: int| "Skyclave Cleric"@)
                    + Seq::new(4, |i: int| "Ossification"@)
                    + Seq::new(4, |i: int| "Counter Spell"@)
                    + Seq::new(2, |i: int| "Lunarch Veteran"@),
            },
            d.discard_pile@.len() == 0,
            d.graveyard@.len() == 0,
            d.in_game@.len() == 0,
            d.exiled@.len() == 0,
    {
        Deck::new(Deck::cards_from_selection(selection))
    }
}

} // verus!

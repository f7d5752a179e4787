//! A player: stats, mana pool, hand, battlefield and deck, and how mana costs
//! are checked and paid.
use vstd::prelude::*;
use crate::action::{copy_mana, phases_contain, ActionTriggerType, CardAction, CardActionTrigger, PhaseTarget, PlayerAction, PlayerActionTrigger, UntapAllAction, ResetManaPoolAction, DrawCardAction, CombatAction};
use crate::card::{Card, CardPhase, CardType, CreatureType, is_land, same_card, same_cards};
use crate::deck::{Deck, DeckPile, deck_drew, deck_gained, last_with_id};
use crate::mana::{ManaPool, ManaType, count_of, join_groups};
use crate::stat::{Stat, StatManager, StatType, Stats, contribution, insert_all};
use crate::turn::{Turn, TurnPhase};

verus! {

/// The six mana types, for stating facts of every type.
pub open spec fn is_colour(m: ManaType) -> bool {
    m != ManaType::Colorless
}

/// Every kind of mana in the cost occurs at most 255 times, so that counting
/// it in a pool of `u8` counters does not overflow.
pub open spec fn cost_countable(cost: Seq<ManaType>) -> bool {
    forall|m: ManaType| #[trigger] count_of(cost, m) <= 255
}

/// The pool holds at least as much of each colour as the cost asks for.
pub open spec fn enough_colored(pool: ManaPool, cost: Seq<ManaType>) -> bool {
    &&& pool.white >= count_of(cost, ManaType::White)
    &&& pool.blue >= count_of(cost, ManaType::Blue)
    &&& pool.black >= count_of(cost, ManaType::Black)
    &&& pool.red >= count_of(cost, ManaType::Red)
    &&& pool.green >= count_of(cost, ManaType::Green)
}

/// The total mana left in the pool once the coloured part of the cost is paid.
pub open spec fn remaining_after_colored(pool: ManaPool, cost: Seq<ManaType>) -> int {
    (pool.white - count_of(cost, ManaType::White))
        + (pool.blue - count_of(cost, ManaType::Blue))
        + (pool.black - count_of(cost, ManaType::Black))
        + (pool.red - count_of(cost, ManaType::Red))
        + (pool.green - count_of(cost, ManaType::Green))
        + pool.colorless
}

/// The pool pays for the cost: every colour is covered, and what is left
/// covers the generic part.
pub open spec fn pool_covers(pool: ManaPool, cost: Seq<ManaType>) -> bool {
    enough_colored(pool, cost) && remaining_after_colored(pool, cost) >= count_of(cost, ManaType::Colorless)
}

/// Counting the cost and what is left of the pool stays within `u8`.
pub open spec fn mana_arith_ok(pool: ManaPool, cost: Seq<ManaType>) -> bool {
    cost_countable(cost) && (enough_colored(pool, cost) ==> remaining_after_colored(pool, cost) <= 255)
}

/// The pool with the coloured part of the cost taken out.
pub open spec fn pay_colored(pool: ManaPool, cost: Seq<ManaType>) -> ManaPool {
    ManaPool {
        white: (pool.white - count_of(cost, ManaType::White)) as u8,
        blue: (pool.blue - count_of(cost, ManaType::Blue)) as u8,
        black: (pool.black - count_of(cost, ManaType::Black)) as u8,
        red: (pool.red - count_of(cost, ManaType::Red)) as u8,
        green: (pool.green - count_of(cost, ManaType::Green)) as u8,
        ..pool
    }
}

pub open spec fn min(a: int, b: int) -> int {
    if a <= b { a } else { b }
}

/// The pool with `g` generic mana taken out: generic mana first, then white,
/// blue, black, red and green, each as far as it goes.
pub open spec fn pay_generic(pool: ManaPool, g: int) -> ManaPool {
    let c = min(pool.colorless as int, g);
    let g1 = g - c;
    let w = min(pool.white as int, g1);
    let g2 = g1 - w;
    let u = min(pool.blue as int, g2);
    let g3 = g2 - u;
    let b = min(pool.black as int, g3);
    let g4 = g3 - b;
    let r = min(pool.red as int, g4);
    let g5 = g4 - r;
    let gr = min(pool.green as int, g5);
    ManaPool {
        colorless: (pool.colorless - c) as u8,
        white: (pool.white - w) as u8,
        blue: (pool.blue - u) as u8,
        black: (pool.black - b) as u8,
        red: (pool.red - r) as u8,
        green: (pool.green - gr) as u8,
        ..pool
    }
}

/// The whole mana in a pool.
pub open spec fn pool_total(pool: ManaPool) -> int {
    pool.white + pool.blue + pool.black + pool.red + pool.green + pool.colorless
}

/// The pool once `cost` has been paid from it as `Player::pay_mana` pays:
/// unchanged when a colour is short, the colours paid when the generic part
/// cannot be, and everything paid otherwise.
pub open spec fn pool_after_paying(pool: ManaPool, cost: Seq<ManaType>) -> ManaPool {
    if !enough_colored(pool, cost) {
        pool
    } else if !pool_covers(pool, cost) {
        pay_colored(pool, cost)
    } else {
        pay_generic(pay_colored(pool, cost), count_of(cost, ManaType::Colorless) as int)
    }
}

/// Why paying `cost` from `pool` fails, if it does.
pub open spec fn payment_error(pool: ManaPool, cost: Seq<ManaType>) -> Option<Seq<char>> {
    if !enough_colored(pool, cost) {
        Some("Not enough colored mana to pay the cost."@)
    } else if !pool_covers(pool, cost) {
        Some("Not enough mana to pay the generic mana cost."@)
    } else {
        None
    }
}

/// The payment went as `payment_error` says it goes.
pub open spec fn payment_result(r: Result<(), String>, pool: ManaPool, cost: Seq<ManaType>) -> bool {
    match r {
        Ok(_) => payment_error(pool, cost).is_none(),
        Err(e) => payment_error(pool, cost) == Some(e@),
    }
}

/// The six counts of a cost add up to its length.
pub proof fn lemma_counts_sum(cost: Seq<ManaType>)
    ensures
        count_of(cost, ManaType::White) + count_of(cost, ManaType::Blue) + count_of(cost, ManaType::Black)
            + count_of(cost, ManaType::Red) + count_of(cost, ManaType::Green) + count_of(cost, ManaType::Colorless)
            == cost.len(),
    decreases cost.len(),
{
    if cost.len() > 0 {
        lemma_counts_sum(cost.drop_last());
    }
}

/// Paying succeeds exactly when the pool covers the cost, and a successful
/// payment takes out of the pool as much mana as the cost holds, never more
/// of any kind than the pool had.
pub proof fn law_payment_spends_cost(pool: ManaPool, cost: Seq<ManaType>)
    ensures
        payment_error(pool, cost).is_none() <==> pool_covers(pool, cost),
        pool_covers(pool, cost) ==> pool_total(pool_after_paying(pool, cost)) == pool_total(pool) - cost.len(),
        forall|m: ManaType| #[trigger] pool_after_paying(pool, cost).amount(m) <= pool.amount(m),
        pool_after_paying(pool, cost).played_card == pool.played_card,
{
    lemma_counts_sum(cost);
}

/// A failed payment for want of a colour leaves the pool as it was.
pub proof fn law_short_colour_pays_nothing(pool: ManaPool, cost: Seq<ManaType>)
    requires
        !enough_colored(pool, cost),
    ensures
        payment_error(pool, cost) == Some("Not enough colored mana to pay the cost."@),
        pool_after_paying(pool, cost) == pool,
{
}

/// What `add_mana` adds, paying that one mana takes out again: the pool comes
/// back as it was.
pub proof fn law_pay_added_mana(pool: ManaPool, m: ManaType)
    requires
        pool.amount(m) < 255,
    ensures
        pool_covers(pool.with_added(m), seq![m]),
        pool_after_paying(pool.with_added(m), seq![m]) == pool,
{
    let c = seq![m];
    assert(c.drop_last() =~= Seq::<ManaType>::empty());
    assert forall|t: ManaType| #[trigger] count_of(c, t) == (if t == m { 1nat } else { 0nat }) by {
        assert(c.len() == 1);
        assert(c.last() == m);
        assert(c.drop_last() =~= Seq::<ManaType>::empty());
        assert(count_of(c.drop_last(), t) == 0);
    }
}

/// A pool pays for its own contents, and nothing is left in it.
pub proof fn law_pool_pays_for_itself(pool: ManaPool)
    ensures
        pool_covers(pool, pool.expanded()),
        pool_after_paying(pool, pool.expanded()) == (ManaPool { played_card: pool.played_card, ..ManaPool::empty() }),
{
    lemma_count_expanded(pool, ManaType::White);
    lemma_count_expanded(pool, ManaType::Blue);
    lemma_count_expanded(pool, ManaType::Black);
    lemma_count_expanded(pool, ManaType::Red);
    lemma_count_expanded(pool, ManaType::Green);
    lemma_count_expanded(pool, ManaType::Colorless);
}

/// `p1` is `p0` after drawing, as `Deck::draw` draws: a copy of the card
/// drawn, if any, is put last in the hand; nothing else changes.
pub open spec fn drew_card(p0: Player, p1: Player) -> bool {
    &&& p1 == (Player { cards_in_hand: p1.cards_in_hand, deck: p1.deck, ..p0 })
    &&& exists|c: Option<Card>| #[trigger] deck_drew(p0.deck, p1.deck, c) && hand_got(p0.cards_in_hand@, p1.cards_in_hand@, c)
}

/// The hand `h1` is `h0` with a copy of the drawn card, if any, put last.
pub open spec fn hand_got(h0: Seq<Card>, h1: Seq<Card>, c: Option<Card>) -> bool {
    match c {
        None => h1 == h0,
        Some(x) => h1.len() == h0.len() + 1 && h1.drop_last() == h0 && same_card(h1.last(), x),
    }
}

/// The players `chain` go through, from `p0` to `p1`, drawing one card at
/// each step.
pub open spec fn draw_chain(chain: Seq<Player>, p0: Player, p1: Player, n: nat) -> bool {
    &&& chain.len() == n + 1
    &&& chain[0] == p0
    &&& chain[n as int] == p1
    &&& forall|i: int| 0 <= i < n ==> #[trigger] drew_card(chain[i], chain[i + 1])
}

/// `p1` is `p0` after drawing `n` times.
pub open spec fn drew_cards(p0: Player, p1: Player, n: nat) -> bool {
    exists|chain: Seq<Player>| #[trigger] draw_chain(chain, p0, p1, n)
}

/// `p1` is `p0` with the cards of the given id taken off the battlefield and,
/// when the deck knows the id, a pristine copy of the card put last in the hand.
pub open spec fn returned_to_hand(p0: Player, p1: Player, id: Seq<char>) -> bool {
    &&& p1 == (Player { cards_in_play: p1.cards_in_play, cards_in_hand: p1.cards_in_hand, ..p0 })
    &&& p1.cards_in_play@ == p0.cards_in_play@.filter(|c: Card| c.id@ != id)
    &&& match last_with_id(p0.deck.map@, id) {
        Some(i) => p1.cards_in_hand@.len() == p0.cards_in_hand@.len() + 1
            && p1.cards_in_hand@.drop_last() == p0.cards_in_hand@
            && same_card(p1.cards_in_hand@.last(), p0.deck.map@[i]),
        None => p1.cards_in_hand == p0.cards_in_hand,
    }
}

/// The cards whose flag is set, in order.
pub open spec fn select(cards: Seq<Card>, picked: Seq<bool>) -> Seq<Card>
    decreases cards.len(),
{
    if cards.len() == 0 || picked.len() != cards.len() {
        Seq::empty()
    } else {
        let rest = select(cards.drop_last(), picked.drop_last());
        if picked.last() { rest.push(cards.last()) } else { rest }
    }
}

/// One step of a card charging up: a charging card with turns left counts
/// down, and is ready once none are left.
pub open spec fn charged_phase(p: CardPhase) -> CardPhase {
    match p {
        CardPhase::Charging(n) => if n > 0 {
            if n - 1 == 0 { CardPhase::Ready } else { CardPhase::Charging((n - 1) as u8) }
        } else {
            p
        },
        _ => p,
    }
}

/// The mana lists that the card-generating triggers of a card add.
pub open spec fn trigger_mana(ts: Seq<CardActionTrigger>) -> Seq<Seq<ManaType>>
    decreases ts.len(),
{
    if ts.len() == 0 {
        Seq::empty()
    } else {
        let rest = trigger_mana(ts.drop_last());
        match ts.last().action {
            CardAction::GenerateMana(g) => rest.push(g.mana_to_add@),
            _ => rest,
        }
    }
}

/// The mana lists the untapped cards among `cards` can produce.
pub open spec fn lands_of(cards: Seq<Card>) -> Seq<Seq<ManaType>>
    decreases cards.len(),
{
    if cards.len() == 0 {
        Seq::empty()
    } else {
        let c = cards.last();
        lands_of(cards.drop_last()) + (if !c.tapped { trigger_mana(c.triggers@) } else { Seq::empty() })
    }
}

/// How much mana of type `m` a list of mana lists holds in all.
pub open spec fn total_of(lands: Seq<Seq<ManaType>>, m: ManaType) -> nat
    decreases lands.len(),
{
    if lands.len() == 0 {
        0
    } else {
        total_of(lands.drop_last(), m) + count_of(lands.last(), m)
    }
}

/// The cards in `cards` can produce every unit of mana the cost asks for, kind by kind.
pub open spec fn lands_cover(cards: Seq<Card>, cost: Seq<ManaType>) -> bool {
    forall|m: ManaType| #[trigger] count_of(cost, m) <= total_of(lands_of(cards), m)
}

/// The triggers every player starts with: untap at the start of their turn,
/// empty the mana pool at every phase of their turn, draw in their draw phase,
/// and resolve combat in their combat-damage phase.
pub open spec fn standard_player_triggers(ts: Seq<PlayerActionTrigger>) -> bool {
    &&& ts.len() == 4
    &&& ts[0].trigger_type matches ActionTriggerType::PhaseStarted(p, PhaseTarget::Owner) && p@ == seq![TurnPhase::Untap]
    &&& ts[0].action == PlayerAction::UntapAll(UntapAllAction {})
    &&& ts[1].trigger_type matches ActionTriggerType::PhaseStarted(p, PhaseTarget::Owner) && p@ == crate::turn::all_phases()
    &&& ts[1].action == PlayerAction::ResetManaPool(ResetManaPoolAction {})
    &&& ts[2].trigger_type matches ActionTriggerType::PhaseStarted(p, PhaseTarget::Owner) && p@ == seq![TurnPhase::Draw]
    &&& ts[2].action == PlayerAction::DrawCard(DrawCardAction {})
    &&& ts[3].trigger_type matches ActionTriggerType::PhaseStarted(p, PhaseTarget::Owner) && p@ == seq![TurnPhase::CombatDamage]
    &&& ts[3].action == PlayerAction::Combat(CombatAction {})
}

/// A player at the table.
pub struct Player {
    pub name: String,
    pub stat_manager: StatManager,
    pub is_alive: bool,
    pub deck: Deck,
    pub cards_in_hand: Vec<Card>,
    pub cards_in_play: Vec<Card>,
    pub triggers: Vec<PlayerActionTrigger>,
    pub mana_pool: ManaPool,
    pub effect_ids: Vec<String>,
    pub health_at_start_of_round: i16,
    pub spells: Vec<Card>,
}

pub proof fn lemma_count_prefix_le(s: Seq<ManaType>, i: int, m: ManaType)
    requires
        0 <= i <= s.len(),
    ensures
        count_of(s.subrange(0, i), m) <= count_of(s, m),
    decreases s.len(),
{
    if i < s.len() {
        lemma_count_prefix_le(s.drop_last(), i, m);
        assert(s.drop_last().subrange(0, i) =~= s.subrange(0, i));
    } else {
        assert(s.subrange(0, i) =~= s);
    }
}

pub proof fn lemma_count_prefix_step(s: Seq<ManaType>, i: int, m: ManaType)
    requires
        0 <= i < s.len(),
    ensures
        count_of(s.subrange(0, i + 1), m) == count_of(s.subrange(0, i), m) + (if s[i] == m { 1nat } else { 0nat }),
{
    assert(s.subrange(0, i + 1).drop_last() =~= s.subrange(0, i));
}


/// The mana lists a vector of lists holds.
pub open spec fn lists_view(v: Seq<Vec<ManaType>>) -> Seq<Seq<ManaType>> {
    v.map_values(|x: Vec<ManaType>| x@)
}

pub proof fn lemma_count_remove(l: Seq<ManaType>, p: int, t: ManaType)
    requires
        0 <= p < l.len(),
    ensures
        count_of(l.remove(p), t) + (if l[p] == t { 1nat } else { 0nat }) == count_of(l, t),
    decreases l.len(),
{
    if p == l.len() - 1 {
        assert(l.remove(p) =~= l.drop_last());
    } else {
        lemma_count_remove(l.drop_last(), p, t);
        assert(l.remove(p).drop_last() =~= l.drop_last().remove(p));
        assert(l.remove(p).last() == l.last());
    }
}

pub proof fn lemma_count_none(l: Seq<ManaType>, t: ManaType)
    requires
        forall|p: int| 0 <= p < l.len() ==> l[p] != t,
    ensures
        count_of(l, t) == 0,
    decreases l.len(),
{
    if l.len() > 0 {
        lemma_count_none(l.drop_last(), t);
    }
}

pub proof fn lemma_count_concat(a: Seq<ManaType>, b: Seq<ManaType>, t: ManaType)
    ensures
        count_of(a + b, t) == count_of(a, t) + count_of(b, t),
    decreases b.len(),
{
    if b.len() == 0 {
        assert(a + b =~= a);
    } else {
        lemma_count_concat(a, b.drop_last(), t);
        assert((a + b).drop_last() =~= a + b.drop_last());
        assert((a + b).last() == b.last());
    }
}

pub proof fn lemma_count_const(n: nat, x: ManaType, t: ManaType)
    ensures
        count_of(Seq::new(n, |i: int| x), t) == (if x == t { n } else { 0 }),
    decreases n,
{
    if n > 0 {
        lemma_count_const((n - 1) as nat, x, t);
        assert(Seq::new(n, |i: int| x).drop_last() =~= Seq::new((n - 1) as nat, |i: int| x));
    }
}

pub proof fn lemma_count_expanded(p: ManaPool, t: ManaType)
    ensures
        count_of(p.expanded(), t) == p.amount(t),
{
    let w = Seq::new(p.white as nat, |i: int| ManaType::White);
    let u = Seq::new(p.blue as nat, |i: int| ManaType::Blue);
    let b = Seq::new(p.black as nat, |i: int| ManaType::Black);
    let r = Seq::new(p.red as nat, |i: int| ManaType::Red);
    let g = Seq::new(p.green as nat, |i: int| ManaType::Green);
    let c = Seq::new(p.colorless as nat, |i: int| ManaType::Colorless);
    lemma_count_concat(w, u, t);
    lemma_count_concat(w + u, b, t);
    lemma_count_concat(w + u + b, r, t);
    lemma_count_concat(w + u + b + r, g, t);
    lemma_count_concat(w + u + b + r + g, c, t);
    lemma_count_const(p.white as nat, ManaType::White, t);
    lemma_count_const(p.blue as nat, ManaType::Blue, t);
    lemma_count_const(p.black as nat, ManaType::Black, t);
    lemma_count_const(p.red as nat, ManaType::Red, t);
    lemma_count_const(p.green as nat, ManaType::Green, t);
    lemma_count_const(p.colorless as nat, ManaType::Colorless, t);
}

pub proof fn lemma_total_update(lists: Seq<Seq<ManaType>>, k: int, l: Seq<ManaType>, t: ManaType)
    requires
        0 <= k < lists.len(),
    ensures
        total_of(lists.update(k, l), t) + count_of(lists[k], t) == total_of(lists, t) + count_of(l, t),
    decreases lists.len(),
{
    if k == lists.len() - 1 {
        assert(lists.update(k, l).drop_last() =~= lists.drop_last());
    } else {
        lemma_total_update(lists.drop_last(), k, l, t);
        assert(lists.update(k, l).drop_last() =~= lists.drop_last().update(k, l));
    }
}

pub proof fn lemma_total_none(lists: Seq<Seq<ManaType>>, t: ManaType)
    requires
        forall|k: int, p: int| 0 <= k < lists.len() && 0 <= p < lists[k].len() ==> lists[k][p] != t,
    ensures
        total_of(lists, t) == 0,
    decreases lists.len(),
{
    if lists.len() > 0 {
        lemma_total_none(lists.drop_last(), t);
        assert forall|p: int| 0 <= p < lists.last().len() implies lists.last()[p] != t by {
            assert(lists[lists.len() - 1][p] != t);
        }
        lemma_count_none(lists.last(), t);
    }
}

pub proof fn lemma_total_concat(a: Seq<Seq<ManaType>>, b: Seq<Seq<ManaType>>, t: ManaType)
    ensures
        total_of(a + b, t) == total_of(a, t) + total_of(b, t),
    decreases b.len(),
{
    if b.len() == 0 {
        assert(a + b =~= a);
    } else {
        lemma_total_concat(a, b.drop_last(), t);
        assert((a + b).drop_last() =~= a + b.drop_last());
        assert((a + b).last() == b.last());
    }
}

impl Player {
    /// A player with the given health and deck, the standard triggers, an
    /// empty pool, hand and battlefield.
    pub fn new(name: &str, health: i16, deck: Vec<Card>) -> (p: Self)
        ensures
            p.name@ == name@,
            p.stat_manager.wf(),
            exists|id: Seq<char>| p.stat_manager.as_map() == Map::<Seq<char>, Stat>::empty().insert(id, Stat { stat_type: StatType::Health, intensity: health }),
            p.is_alive,
            p.cards_in_hand@.len() == 0,
            p.cards_in_play@.len() == 0,
            p.spells@.len() == 0,
            p.health_at_start_of_round == health,
            p.deck.draw_pile@ == deck@,
            same_cards(p.deck.map@, deck@),
            p.deck.graveyard@.len() == 0,
            p.deck.exiled@.len() == 0,
            p.deck.in_game@.len() == 0,
            p.deck.discard_pile@.len() == 0,
            standard_player_triggers(p.triggers@),
            p.mana_pool == ManaPool::empty(),
            p.effect_ids@.len() == 0,
    {
        let mut stats: Vec<Stat> = Vec::new();
        stats.push(Stat::new(StatType::Health, health));
        let stat_manager = StatManager::new(stats);
        proof {
            reveal_with_fuel(insert_all, 2);
            assert(stats@ =~= seq![Stat { stat_type: StatType::Health, intensity: health }]);
            let ids = choose|ids: Seq<Seq<char>>| ids.len() == 1 && stat_manager.as_map() == insert_all(Map::empty(), ids, stats@);
            assert(ids.drop_last().len() == 0);
            assert(stat_manager.as_map() == Map::<Seq<char>, Stat>::empty().insert(ids[0], Stat { stat_type: StatType::Health, intensity: health }));
        }
        let mut untap: Vec<TurnPhase> = Vec::new();
        untap.push(TurnPhase::Untap);
        let all = crate::turn::all_phases_vec();
        let mut draw: Vec<TurnPhase> = Vec::new();
        draw.push(TurnPhase::Draw);
        let mut combat: Vec<TurnPhase> = Vec::new();
        combat.push(TurnPhase::CombatDamage);
        assert(untap@ =~= seq![TurnPhase::Untap]);
        assert(draw@ =~= seq![TurnPhase::Draw]);
        assert(combat@ =~= seq![TurnPhase::CombatDamage]);
        let mut triggers: Vec<PlayerActionTrigger> = Vec::new();
        triggers.push(PlayerActionTrigger::new(
            ActionTriggerType::PhaseStarted(untap, PhaseTarget::Owner),
            PlayerAction::UntapAll(UntapAllAction {}),
        ));
        triggers.push(PlayerActionTrigger::new(
            ActionTriggerType::PhaseStarted(all, PhaseTarget::Owner),
            PlayerAction::ResetManaPool(ResetManaPoolAction {}),
        ));
        triggers.push(PlayerActionTrigger::new(
            ActionTriggerType::PhaseStarted(draw, PhaseTarget::Owner),
            PlayerAction::DrawCard(DrawCardAction {}),
        ));
        triggers.push(PlayerActionTrigger::new(
            ActionTriggerType::PhaseStarted(combat, PhaseTarget::Owner),
            PlayerAction::Combat(CombatAction {}),
        ));
        Self {
            name: name.to_string(),
            stat_manager,
            is_alive: true,
            cards_in_hand: Vec::new(),
            health_at_start_of_round: health,
            cards_in_play: Vec::new(),
            deck: Deck::new(deck),
            spells: Vec::new(),
            triggers,
            mana_pool: ManaPool::new(),
            effect_ids: Vec::new(),
        }
    }

    /// Clears the spells on the stack of this player.
    pub fn reset_spells(&mut self)
        ensures
            final(self).spells@.len() == 0,
            final(self).name == old(self).name,
            final(self).stat_manager == old(self).stat_manager,
            final(self).cards_in_play == old(self).cards_in_play,
            final(self).cards_in_hand == old(self).cards_in_hand,
            final(self).mana_pool == old(self).mana_pool,
            *final(self) == (Player { spells: final(self).spells, ..*old(self) }),
    {
        self.spells = Vec::new();
    }

    /// Adds a stat of the given type under a freshly generated id.
    pub fn add_stat_type(&mut self, stat_type: StatType, amount: i16)
        requires
            old(self).stat_manager.wf(),
        ensures
            final(self).stat_manager.wf(),
            exists|id: Seq<char>| id.len() == 26 && final(self).stat_manager.as_map() == old(self).stat_manager.as_map().insert(id, Stat { stat_type, intensity: amount })
                && forall|t: StatType| #[trigger] final(self).stat_manager.total(t) == old(self).stat_manager.total(t)
                    - (if old(self).stat_manager.as_map().contains_key(id) { contribution((id, old(self).stat_manager.as_map()[id]), t) } else { 0 })
                    + contribution((id, Stat { stat_type, intensity: amount }), t),
            *final(self) == (Player { stat_manager: final(self).stat_manager, ..*old(self) }),
            final(self).stat_manager.listeners == old(self).stat_manager.listeners,
    {
        let id = crate::rng::new_ulid();
        let ghost idv = id@;
        self.stat_manager.add_stat(id, Stat::new(stat_type, amount));
        assert(idv.len() == 26);
    }

    /// Empties the mana pool, keeping whether a land was played.
    pub fn empty_mana_pool(&mut self)
        ensures
            final(self).mana_pool == (ManaPool { played_card: old(self).mana_pool.played_card, ..ManaPool::empty() }),
            final(self).name == old(self).name,
            final(self).cards_in_play == old(self).cards_in_play,
    {
        self.mana_pool.empty_pool();
    }

    /// The pool rendered as `ManaPool::format_mana` renders it.
    pub fn display_mana_pool(&self) -> (s: String)
        ensures
            s@ == join_groups(self.mana_pool.groups()),
    {
        self.mana_pool.format_mana()
    }

    /// How many of each mana type the cost holds, as a pool.
    fn required_pool(cost: &Vec<ManaType>) -> (p: ManaPool)
        requires
            cost_countable(cost@),
        ensures
            forall|m: ManaType| #[trigger] p.amount(m) == count_of(cost@, m),
            !p.played_card,
    {
        let mut p = ManaPool::new();
        let mut i: usize = 0;
        while i < cost.len()
            invariant
                i <= cost@.len(),
                cost_countable(cost@),
                !p.played_card,
                forall|m: ManaType| #[trigger] p.amount(m) == count_of(cost@.subrange(0, i as int), m),
            decreases cost@.len() - i,
        {
            let m = cost[i];
            proof {
                lemma_count_prefix_step(cost@, i as int, m);
                lemma_count_prefix_le(cost@, i as int + 1, m);
                assert(count_of(cost@, m) <= 255);
            }
            let ghost p0 = p;
            p.add_mana(m);
            i = i + 1;
            proof {
                assert forall|t: ManaType| #[trigger] p.amount(t) == count_of(cost@.subrange(0, i as int), t) by {
                    lemma_count_prefix_step(cost@, i as int - 1, t);
                    assert(p0.amount(t) == count_of(cost@.subrange(0, i as int - 1), t));
                }
            }
        }
        proof { assert(cost@.subrange(0, cost@.len() as int) =~= cost@); }
        p
    }


    /// Whether the untapped cards in play can produce the cost: each unit of
    /// the cost is matched, in colour order, against the first mana list that
    /// still holds a unit of that very kind, which is then used up.
    pub fn can_pay_mana(&self, mana: &Vec<ManaType>) -> (b: bool)
        requires
            cost_countable(mana@),
        ensures
            b == lands_cover(self.cards_in_play@, mana@),
    {
        let required = Player::required_pool(mana);
        let mut available: Vec<Vec<ManaType>> = Vec::new();
        let mut c: usize = 0;
        while c < self.cards_in_play.len()
            invariant
                c <= self.cards_in_play@.len(),
                lists_view(available@) == lands_of(self.cards_in_play@.subrange(0, c as int)),
            decreases self.cards_in_play@.len() - c,
        {
            let card = &self.cards_in_play[c];
            let ghost base = lists_view(available@);
            proof {
                assert(self.cards_in_play@.subrange(0, c as int + 1).drop_last() =~= self.cards_in_play@.subrange(0, c as int));
            }
            if !card.tapped {
                let mut t: usize = 0;
                while t < card.triggers.len()
                    invariant
                        t <= card.triggers@.len(),
                        lists_view(available@) == base + trigger_mana(card.triggers@.subrange(0, t as int)),
                    decreases card.triggers@.len() - t,
                {
                    proof {
                        assert(card.triggers@.subrange(0, t as int + 1).drop_last() =~= card.triggers@.subrange(0, t as int));
                    }
                    match &card.triggers[t].action {
                        CardAction::GenerateMana(g) => {
                            let ghost before = available@;
                            let l = crate::action::copy_mana(&g.mana_to_add);
                            available.push(l);
                            proof {
                                assert(lists_view(available@) =~= lists_view(before).push(g.mana_to_add@));
                                assert(base + trigger_mana(card.triggers@.subrange(0, t as int + 1))
                                    =~= (base + trigger_mana(card.triggers@.subrange(0, t as int))).push(g.mana_to_add@));
                            }
                        },
                        _ => {},
                    }
                    t = t + 1;
                }
                proof {
                    assert(card.triggers@.subrange(0, card.triggers@.len() as int) =~= card.triggers@);
                }
            } else {
                proof {
                    assert(base + Seq::<Seq<ManaType>>::empty() =~= base);
                }
            }
            c = c + 1;
        }
        proof {
            assert(self.cards_in_play@.subrange(0, self.cards_in_play@.len() as int) =~= self.cards_in_play@);
        }
        let ghost init = lists_view(available@);
        let req_vec = required.to_vec();
        proof {
            assert forall|t: ManaType| #[trigger] count_of(req_vec@, t) == count_of(mana@, t) by {
                lemma_count_expanded(required, t);
            }
        }
        let mut r: usize = 0;
        while r < req_vec.len()
            invariant
                r <= req_vec@.len(),
                init == lands_of(self.cards_in_play@),
                forall|t: ManaType| #[trigger] count_of(req_vec@, t) == count_of(mana@, t),
                forall|t: ManaType| #[trigger] total_of(lists_view(available@), t) + count_of(req_vec@.subrange(0, r as int), t) == total_of(init, t),
            decreases req_vec@.len() - r,
        {
            let mana_type = req_vec[r];
            let mut found = false;
            let mut k: usize = 0;
            let ghost cur = lists_view(available@);
            while !found && k < available.len()
                invariant
                    k <= available@.len(),
                    available@.len() == cur.len(),
                    !found ==> cur == lists_view(available@),
                    !found ==> forall|kk: int, p: int| 0 <= kk < k && 0 <= p < cur[kk].len() ==> cur[kk][p] != mana_type,
                    found ==> forall|t: ManaType| #[trigger] total_of(lists_view(available@), t) + count_of(req_vec@.subrange(0, r as int + 1), t) == total_of(init, t),
                    r < req_vec@.len(),
                    mana_type == req_vec@[r as int],
                    forall|t: ManaType| #[trigger] total_of(cur, t) + count_of(req_vec@.subrange(0, r as int), t) == total_of(init, t),
                decreases available@.len() - k + (if found { 0int } else { 1int }),
            {
                let mut pos: usize = 0;
                let mut hit = false;
                while !hit && pos < available[k].len()
                    invariant
                        k < available@.len(),
                        pos <= available@[k as int]@.len(),
                        hit ==> pos < available@[k as int]@.len() && available@[k as int]@[pos as int] == mana_type,
                        forall|p: int| 0 <= p < pos ==> available@[k as int]@[p] != mana_type,
                    decreases available@[k as int]@.len() - pos + (if hit { 0int } else { 1int }),
                {
                    if available[k][pos] == mana_type {
                        hit = true;
                    } else {
                        pos = pos + 1;
                    }
                }
                if hit {
                    let mut land = crate::action::copy_mana(&available[k]);
                    let ghost l0 = land@;
                    land.remove(pos);
                    available.set(k, land);
                    proof {
                        assert(lists_view(available@) =~= cur.update(k as int, l0.remove(pos as int)));
                        assert(cur[k as int] == l0);
                        assert forall|t: ManaType| #[trigger] total_of(lists_view(available@), t) + count_of(req_vec@.subrange(0, r as int + 1), t) == total_of(init, t) by {
                            lemma_total_update(cur, k as int, l0.remove(pos as int), t);
                            lemma_count_remove(l0, pos as int, t);
                            lemma_count_prefix_step(req_vec@, r as int, t);
                        }
                    }
                    found = true;
                } else {
                    proof {
                        assert forall|p: int| 0 <= p < cur[k as int].len() implies cur[k as int][p] != mana_type by {
                            assert(cur[k as int] == available@[k as int]@);
                        }
                    }
                    k = k + 1;
                }
            }
            if !found {
                proof {
                    lemma_total_none(cur, mana_type);
                    lemma_count_prefix_step(req_vec@, r as int, mana_type);
                    lemma_count_prefix_le(req_vec@, r as int + 1, mana_type);
                    assert(count_of(mana@, mana_type) > total_of(lands_of(self.cards_in_play@), mana_type));
                }
                return false;
            }
            r = r + 1;
        }
        proof {
            assert(req_vec@.subrange(0, req_vec@.len() as int) =~= req_vec@);
            assert forall|m: ManaType| #[trigger] count_of(mana@, m) <= total_of(lands_of(self.cards_in_play@), m) by {
                assert(total_of(lists_view(available@), m) + count_of(req_vec@.subrange(0, r as int), m) == total_of(init, m));
            }
        }
        true
    }

    /// Whether the pool pays for the cost.
    pub fn has_required_mana(&self, requirement: &Vec<ManaType>) -> (b: bool)
        requires
            mana_arith_ok(self.mana_pool, requirement@),
        ensures
            b == pool_covers(self.mana_pool, requirement@),
    {
        let req = Player::required_pool(requirement);
        proof {
            assert(req.amount(ManaType::White) == count_of(requirement@, ManaType::White));
            assert(req.amount(ManaType::Blue) == count_of(requirement@, ManaType::Blue));
            assert(req.amount(ManaType::Black) == count_of(requirement@, ManaType::Black));
            assert(req.amount(ManaType::Red) == count_of(requirement@, ManaType::Red));
            assert(req.amount(ManaType::Green) == count_of(requirement@, ManaType::Green));
            assert(req.amount(ManaType::Colorless) == count_of(requirement@, ManaType::Colorless));
        }
        let pool = &self.mana_pool;
        let has_enough_colored_mana = pool.white >= req.white
            && pool.blue >= req.blue
            && pool.black >= req.black
            && pool.red >= req.red
            && pool.green >= req.green;
        if !has_enough_colored_mana {
            return false;
        }
        let remaining_mana = (pool.white - req.white)
            + (pool.blue - req.blue)
            + (pool.black - req.black)
            + (pool.red - req.red)
            + (pool.green - req.green)
            + pool.colorless;
        remaining_mana >= req.colorless
    }

    /// Pays the cost from the pool: colours from their own mana, then the
    /// generic part from generic mana first and then from white, blue, black,
    /// red and green. When a colour is short nothing is paid; when the
    /// generic part cannot be paid, the colours stay paid.
    pub fn pay_mana(&mut self, cost: &Vec<ManaType>) -> (r: Result<(), String>)
        requires
            mana_arith_ok(old(self).mana_pool, cost@),
        ensures
            payment_result(r, old(self).mana_pool, cost@),
            final(self).mana_pool == pool_after_paying(old(self).mana_pool, cost@),
            *final(self) == (Player { mana_pool: final(self).mana_pool, ..*old(self) }),
    {
        let req = Player::required_pool(cost);
        proof {
            assert(req.amount(ManaType::White) == count_of(cost@, ManaType::White));
            assert(req.amount(ManaType::Blue) == count_of(cost@, ManaType::Blue));
            assert(req.amount(ManaType::Black) == count_of(cost@, ManaType::Black));
            assert(req.amount(ManaType::Red) == count_of(cost@, ManaType::Red));
            assert(req.amount(ManaType::Green) == count_of(cost@, ManaType::Green));
            assert(req.amount(ManaType::Colorless) == count_of(cost@, ManaType::Colorless));
        }
        let white_required = req.white;
        let blue_required = req.blue;
        let black_required = req.black;
        let red_required = req.red;
        let green_required = req.green;
        let generic_required = req.colorless;

        if self.mana_pool.white < white_required
            || self.mana_pool.blue < blue_required
            || self.mana_pool.black < black_required
            || self.mana_pool.red < red_required
            || self.mana_pool.green < green_required
        {
            return Err("Not enough colored mana to pay the cost.".to_string());
        }

        self.mana_pool.white = self.mana_pool.white - white_required;
        self.mana_pool.blue = self.mana_pool.blue - blue_required;
        self.mana_pool.black = self.mana_pool.black - black_required;
        self.mana_pool.red = self.mana_pool.red - red_required;
        self.mana_pool.green = self.mana_pool.green - green_required;

        let total_available_mana = self.mana_pool.white
            + self.mana_pool.blue
            + self.mana_pool.black
            + self.mana_pool.red
            + self.mana_pool.green
            + self.mana_pool.colorless;

        if total_available_mana < generic_required {
            return Err("Not enough mana to pay the generic mana cost.".to_string());
        }

        let mut remaining_generic = generic_required;

        let colorless_to_use = if self.mana_pool.colorless < remaining_generic { self.mana_pool.colorless } else { remaining_generic };
        self.mana_pool.colorless = self.mana_pool.colorless - colorless_to_use;
        remaining_generic = remaining_generic - colorless_to_use;

        if remaining_generic > 0 {
            let to_use = if self.mana_pool.white < remaining_generic { self.mana_pool.white } else { remaining_generic };
            self.mana_pool.white = self.mana_pool.white - to_use;
            remaining_generic = remaining_generic - to_use;
        }
        if remaining_generic > 0 {
            let to_use = if self.mana_pool.blue < remaining_generic { self.mana_pool.blue } else { remaining_generic };
            self.mana_pool.blue = self.mana_pool.blue - to_use;
            remaining_generic = remaining_generic - to_use;
        }
        if remaining_generic > 0 {
            let to_use = if self.mana_pool.black < remaining_generic { self.mana_pool.black } else { remaining_generic };
            self.mana_pool.black = self.mana_pool.black - to_use;
            remaining_generic = remaining_generic - to_use;
        }
        if remaining_generic > 0 {
            let to_use = if self.mana_pool.red < remaining_generic { self.mana_pool.red } else { remaining_generic };
            self.mana_pool.red = self.mana_pool.red - to_use;
            remaining_generic = remaining_generic - to_use;
        }
        if remaining_generic > 0 {
            let to_use = if self.mana_pool.green < remaining_generic { self.mana_pool.green } else { remaining_generic };
            self.mana_pool.green = self.mana_pool.green - to_use;
            remaining_generic = remaining_generic - to_use;
        }

        if remaining_generic > 0 {
            return Err("Unexpected error: Not all generic mana cost was paid.".to_string());
        }

        Ok(())
    }

    /// Leaves the player as it is: the deck is fixed when the player is made.
    pub fn set_deck(&mut self, card: Vec<Card>)
        ensures
            *final(self) == *old(self),
    {
    }

    /// Draws the top card of the deck into the hand.
    pub fn draw_card(&mut self) -> (c: Option<Card>)
        ensures
            deck_drew(old(self).deck, final(self).deck, c),
            hand_got(old(self).cards_in_hand@, final(self).cards_in_hand@, c),
            drew_card(*old(self), *final(self)),
    {
        match self.deck.draw() {
            Some(card) => {
                let ghost h = self.cards_in_hand@;
                self.cards_in_hand.push(card.copy());
                assert(self.cards_in_hand@.drop_last() =~= h);
                Some(card)
            },
            None => None,
        }
    }

    /// Takes the card with the given id off the battlefield and puts a
    /// pristine copy of it into the hand, when the deck knows the id.
    pub fn return_card_to_hand(&mut self, card_id: &String)
        ensures
            returned_to_hand(*old(self), *final(self), card_id@),
    {
        let mut rest: Vec<Card> = Vec::new();
        std::mem::swap(&mut rest, &mut self.cards_in_play);
        let total: usize = rest.len();
        let ghost play = rest@;
        let ghost keep = |c: Card| c.id@ != card_id@;
        let mut kept: Vec<Card> = Vec::new();
        let mut i: usize = 0;
        while rest.len() > 0
            invariant
                i <= play.len() == total,
                rest@ == play.subrange(i as int, play.len() as int),
                keep == (|c: Card| c.id@ != card_id@),
                kept@ == play.subrange(0, i as int).filter(keep),
            decreases rest@.len(),
        {
            proof {
                assert(play.subrange(0, i as int + 1).drop_last() =~= play.subrange(0, i as int));
            }
            let c = rest.remove(0);
            proof {
                assert(c == play[i as int]);
                assert(play.subrange(0, i as int + 1).last() == c);
                reveal_with_fuel(Seq::filter, 1);
            }
            if c.id != *card_id {
                kept.push(c);
            }
            i = i + 1;
            proof {
                assert(rest@ =~= play.subrange(i as int, play.len() as int));
            }
        }
        proof {
            assert(play.subrange(0, play.len() as int) =~= play);
        }
        self.cards_in_play = kept;
        match self.deck.fresh(card_id) {
            Some(card) => {
                let ghost h = self.cards_in_hand@;
                self.cards_in_hand.push(card);
                assert(self.cards_in_hand@.drop_last() =~= h);
            },
            None => {},
        }
    }

    /// Takes the card at the given position off the battlefield and puts a
    /// pristine copy of it into exile.
    pub fn exile_card_in_play(&mut self, card_index: usize)
        requires
            card_index < old(self).cards_in_play@.len(),
        ensures
            final(self).cards_in_play@ == old(self).cards_in_play@.remove(card_index as int),
            deck_gained(old(self).deck, final(self).deck, old(self).cards_in_play@[card_index as int].id@, DeckPile::Exiled),
            *final(self) == (Player { cards_in_play: final(self).cards_in_play, deck: final(self).deck, ..*old(self) }),
    {
        let card = self.cards_in_play.remove(card_index);
        self.deck.exile(card.id);
    }

    /// Takes the card at the given position off the battlefield and puts a
    /// pristine copy of it into the graveyard.
    pub fn destroy_card_in_play(&mut self, card_index: usize)
        requires
            card_index < old(self).cards_in_play@.len(),
        ensures
            final(self).cards_in_play@ == old(self).cards_in_play@.remove(card_index as int),
            deck_gained(old(self).deck, final(self).deck, old(self).cards_in_play@[card_index as int].id@, DeckPile::Graveyard),
            *final(self) == (Player { cards_in_play: final(self).cards_in_play, deck: final(self).deck, ..*old(self) }),
    {
        let card = self.cards_in_play.remove(card_index);
        self.deck.destroy(card.id);
    }

    /// Moves every charging card on the battlefield one turn closer to ready.
    pub fn advance_card_phases(&mut self)
        ensures
            final(self).cards_in_play@.len() == old(self).cards_in_play@.len(),
            forall|i: int| 0 <= i < old(self).cards_in_play@.len() ==> #[trigger] final(self).cards_in_play@[i]
                == (Card { current_phase: charged_phase(old(self).cards_in_play@[i].current_phase), ..old(self).cards_in_play@[i] }),
            *final(self) == (Player { cards_in_play: final(self).cards_in_play, ..*old(self) }),
    {
        let mut i: usize = 0;
        while i < self.cards_in_play.len()
            invariant
                i <= self.cards_in_play@.len(),
                self.cards_in_play@.len() == old(self).cards_in_play@.len(),
                *self == (Player { cards_in_play: self.cards_in_play, ..*old(self) }),
                forall|j: int| i <= j < self.cards_in_play@.len() ==> #[trigger] self.cards_in_play@[j] == old(self).cards_in_play@[j],
                forall|j: int| 0 <= j < i ==> #[trigger] self.cards_in_play@[j]
                    == (Card { current_phase: charged_phase(old(self).cards_in_play@[j].current_phase), ..old(self).cards_in_play@[j] }),
            decreases self.cards_in_play@.len() - i,
        {
            let mut card = self.cards_in_play.remove(i);
            match card.current_phase {
                CardPhase::Charging(turns_remaining) => {
                    if turns_remaining > 0 {
                        let left = turns_remaining - 1;
                        card.current_phase = CardPhase::Charging(left);
                        if left == 0 {
                            card.current_phase = CardPhase::Ready;
                        }
                    }
                },
                _ => {},
            }
            self.cards_in_play.insert(i, card);
            i = i + 1;
        }
    }

    /// The cards on the battlefield of the given tribe, in order.
    pub fn creatures_of_type(&self, creature_type: CreatureType) -> (r: Vec<Card>)
        ensures
            same_cards(r@, self.cards_in_play@.filter(|c: Card| c.creature_type == Some(creature_type))),
    {
        let ghost keep = |c: Card| c.creature_type == Some(creature_type);
        let mut cards: Vec<Card> = Vec::new();
        let mut i: usize = 0;
        while i < self.cards_in_play.len()
            invariant
                i <= self.cards_in_play@.len(),
                keep == (|c: Card| c.creature_type == Some(creature_type)),
                same_cards(cards@, self.cards_in_play@.subrange(0, i as int).filter(keep)),
            decreases self.cards_in_play@.len() - i,
        {
            proof {
                assert(self.cards_in_play@.subrange(0, i as int + 1).drop_last() =~= self.cards_in_play@.subrange(0, i as int));
                reveal_with_fuel(Seq::filter, 1);
            }
            let ghost before = cards@;
            if self.cards_in_play[i].creature_type == Some(creature_type) {
                cards.push(self.cards_in_play[i].copy());
                proof {
                    let f = self.cards_in_play@.subrange(0, i as int + 1).filter(keep);
                    assert(f == self.cards_in_play@.subrange(0, i as int).filter(keep).push(self.cards_in_play@[i as int]));
                    assert forall|k: int| 0 <= k < cards@.len() implies same_card(#[trigger] cards@[k], f[k]) by {
                        if k < before.len() {
                            assert(cards@[k] == before[k]);
                        }
                    }
                }
            }
            i = i + 1;
        }
        proof {
            assert(self.cards_in_play@.subrange(0, self.cards_in_play@.len() as int) =~= self.cards_in_play@);
        }
        cards
    }

    /// The cards on the battlefield the closure accepts, in order.
    pub fn filter_cards_in_play<F: Fn(&Card) -> bool>(&self, closure: F) -> (r: Vec<Card>)
        requires
            forall|i: int| 0 <= i < self.cards_in_play@.len() ==> call_requires(closure, (&#[trigger] self.cards_in_play@[i],)),
        ensures
            exists|picked: Seq<bool>| {
                &&& picked.len() == self.cards_in_play@.len()
                &&& forall|i: int| 0 <= i < picked.len() ==> call_ensures(closure, (&self.cards_in_play@[i],), #[trigger] picked[i])
                &&& same_cards(r@, select(self.cards_in_play@, picked))
            },
    {
        let ghost mut picked: Seq<bool> = Seq::empty();
        let mut cards: Vec<Card> = Vec::new();
        let mut i: usize = 0;
        while i < self.cards_in_play.len()
            invariant
                i <= self.cards_in_play@.len(),
                picked.len() == i,
                forall|i: int| 0 <= i < self.cards_in_play@.len() ==> call_requires(closure, (&#[trigger] self.cards_in_play@[i],)),
                forall|k: int| 0 <= k < i ==> call_ensures(closure, (&self.cards_in_play@[k],), #[trigger] picked[k]),
                same_cards(cards@, select(self.cards_in_play@.subrange(0, i as int), picked)),
            decreases self.cards_in_play@.len() - i,
        {
            let card = &self.cards_in_play[i];
            let b = closure(card);
            let ghost before = cards@;
            if b {
                cards.push(card.copy());
            }
            proof {
                let sub = self.cards_in_play@.subrange(0, i as int + 1);
                assert(sub.drop_last() =~= self.cards_in_play@.subrange(0, i as int));
                assert(picked.push(b).drop_last() =~= picked);
                let f = select(sub, picked.push(b));
                assert forall|k: int| 0 <= k < cards@.len() implies same_card(#[trigger] cards@[k], f[k]) by {
                    if k < before.len() {
                        assert(cards@[k] == before[k]);
                    }
                }
                picked = picked.push(b);
            }
            i = i + 1;
        }
        proof {
            assert(self.cards_in_play@.subrange(0, self.cards_in_play@.len() as int) =~= self.cards_in_play@);
        }
        cards
    }

    /// Whether the card may be played now: a land only on the player's own
    /// turn and only while no land was played this turn, anything else always.
    pub fn can_play(&self, card: &Card, is_my_turn: bool) -> (b: bool)
        ensures
            b == (is_land(card.card_type) ==> !self.mana_pool.played_card && is_my_turn),
    {
        match card.card_type {
            CardType::BasicLand(_) => self.mana_pool.played_card == false && is_my_turn,
            CardType::AdvancedLand(_) => self.mana_pool.played_card == false && is_my_turn,
            CardType::AdvancedMultiLand(_, _) => self.mana_pool.played_card == false && is_my_turn,
            _ => true,
        }
    }

    /// Whether the pool pays for the card's cost.
    pub fn pool_has_cost_for_card(&self, card: &Card) -> (b: bool)
        requires
            mana_arith_ok(self.mana_pool, card.cost@),
        ensures
            b == pool_covers(self.mana_pool, card.cost@),
    {
        self.has_required_mana(&card.cost)
    }

    /// Pays the card's cost from the pool, as `pay_mana` pays.
    pub fn pay_mana_for_card(&mut self, card: &Card) -> (r: Result<(), String>)
        requires
            mana_arith_ok(old(self).mana_pool, card.cost@),
        ensures
            payment_result(r, old(self).mana_pool, card.cost@),
            final(self).mana_pool == pool_after_paying(old(self).mana_pool, card.cost@),
            final(self).name == old(self).name,
            final(self).stat_manager == old(self).stat_manager,
            final(self).cards_in_play == old(self).cards_in_play,
            final(self).cards_in_hand == old(self).cards_in_hand,
            final(self).deck == old(self).deck,
    {
        let cost = copy_mana(&card.cost);
        self.pay_mana(&cost)
    }
}


/// Whether a phase target lets the owner or the others act, `is_current`
/// telling whether it is the owner's turn.
pub open spec fn target_allows(target: PhaseTarget, is_current: bool) -> bool {
    match target {
        PhaseTarget::Owner => is_current,
        PhaseTarget::Opponent => !is_current,
        PhaseTarget::Any => true,
    }
}

/// Whether a player's trigger of the given type fires in the turn, for a
/// player whose pool is `pool` and who is or is not the current player.
pub open spec fn player_trigger_applies(tt: ActionTriggerType, turn: Turn, is_current: bool, pool: ManaPool) -> bool {
    match tt {
        ActionTriggerType::PhaseStarted(phases, target) => phases@.contains(turn.phase) && target_allows(target, is_current),
        ActionTriggerType::CardEnteredBattlefield => false,
        ActionTriggerType::AbilityWithinPhases(_, mana, restriction, _, _) => pool_covers(pool, mana@) && match restriction {
            Some((phases, target)) => phases@.contains(turn.phase) && target_allows(target, is_current),
            None => true,
        },
        ActionTriggerType::DamageApplied => turn.phase == TurnPhase::CombatDamage,
        _ => true,
    }
}

/// The player can count the mana every ability trigger of its asks for.
pub open spec fn player_triggers_countable(p: Player) -> bool {
    forall|i: int| 0 <= i < p.triggers@.len() ==> match (#[trigger] p.triggers@[i]).trigger_type {
        ActionTriggerType::AbilityWithinPhases(_, m, _, _, _) => mana_arith_ok(p.mana_pool, m@),
        _ => true,
    }
}

impl PlayerActionTrigger {
    /// Whether the trigger fires in the given turn for the player at the
    /// given seat.
    pub fn applies_in_phase(&self, turn: &Turn, player_index: usize, player: &Player) -> (b: bool)
        requires
            match self.trigger_type {
                ActionTriggerType::AbilityWithinPhases(_, m, _, _, _) => mana_arith_ok(player.mana_pool, m@),
                _ => true,
            },
        ensures
            b == player_trigger_applies(self.trigger_type, *turn, turn.current_player_index == player_index as i32, player.mana_pool),
    {
        let is_current = turn.current_player_index == player_index as i32;
        match &self.trigger_type {
            ActionTriggerType::CardStatChanged => true,
            ActionTriggerType::Attached => true,
            ActionTriggerType::CardDestroyed => true,
            ActionTriggerType::OtherCardDestroyed(_) => true,
            ActionTriggerType::PhaseStarted(phases, trigger_target) => match trigger_target {
                PhaseTarget::Owner => phases_contain(phases, turn.phase) && is_current,
                PhaseTarget::Opponent => phases_contain(phases, turn.phase) && !is_current,
                PhaseTarget::Any => phases_contain(phases, turn.phase),
            },
            ActionTriggerType::CardEnteredBattlefield => false,
            ActionTriggerType::Omnipresent => true,
            ActionTriggerType::Detached => true,
            ActionTriggerType::AbilityWithinPhases(_, mana_requirements, phase_restrictions, _, _) => {
                let has_mana = player.has_required_mana(mana_requirements);
                let within_phase = match phase_restrictions {
                    Some((phases, phase_target)) => {
                        let within = phases_contain(phases, turn.phase);
                        match phase_target {
                            PhaseTarget::Owner => within && is_current,
                            PhaseTarget::Opponent => within && !is_current,
                            PhaseTarget::Any => within,
                        }
                    },
                    None => true,
                };
                has_mana && within_phase
            },
            ActionTriggerType::DamageApplied => turn.phase == TurnPhase::CombatDamage,
            ActionTriggerType::OtherCardPlayed(_) => true,
            ActionTriggerType::CreatureTypeCardPlayed(_, _) => true,
            ActionTriggerType::CardExiled => true,
            ActionTriggerType::OtherCardExiled(_) => true,
            ActionTriggerType::PlayerStatChanged(_) => true,
        }
    }
}

impl Stats for Player {
    open spec fn stat_manager(&self) -> StatManager {
        self.stat_manager
    }

    fn add_stat(&mut self, id: String, stat: Stat)
        ensures
            final(self).name == old(self).name,
            final(self).cards_in_play == old(self).cards_in_play,
            final(self).mana_pool == old(self).mana_pool,
    {
        self.stat_manager.add_stat(id, stat);
    }

    fn remove_stat(&mut self, id: String)
        ensures
            final(self).name == old(self).name,
            final(self).cards_in_play == old(self).cards_in_play,
            final(self).mana_pool == old(self).mana_pool,
    {
        self.stat_manager.remove_stat(id);
    }

    fn get_stat_value(&self, stat_type: StatType) -> (v: i16) {
        self.stat_manager.get_stat_value(stat_type)
    }

    fn modify_stat(&mut self, stat_type: StatType, intensity: i16)
        ensures
            final(self).name == old(self).name,
            final(self).cards_in_play == old(self).cards_in_play,
            final(self).mana_pool == old(self).mana_pool,
    {
        self.stat_manager.modify_stat(stat_type, intensity);
    }
}

} // verus!

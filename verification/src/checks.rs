//! Tests, on a game as it stands, of the conditions under which its card
//! and player actions can be carried out.
use vstd::prelude::*;
use crate::abilities::abilities_wf;
use crate::action::{ActionTriggerType, PhaseTarget};
use crate::card::Card;
use crate::deck::DeckPile;
use crate::action::{CardAction, CardActionWrapper, PlayerAction, PlayerActionWrapper};
use crate::combat::{Combat, card_of, combat_ready, fighting};
use crate::effects::EffectTarget;
use crate::execute::{player_action_ready, acting_card, acting_pos, card_action_ready, card_damage, countable, found_at, kind_unhandled, lemma_found_at_unique, owner_seat, target_ok, target_seat};
use crate::game::{Ability, FrontendCardTarget, FrontendPileName, FrontendTarget, Game, holds_card, pile_of};
use crate::mana::{ManaPool, ManaType, count_of};
use crate::player::Player;
use crate::removal::{no_opponent_answers, not_for_opponents};
use crate::stat::{StatManager, StatType, contribution, sum_type};
use crate::table::{find_card_in_play, find_player, first_in_play, first_named, in_play_at};

verus! {

/// Whether no two stats share an id.
pub fn stats_distinct(sm: &StatManager) -> (b: bool)
    ensures
        b == sm.wf(),
{
    let n = sm.stats.len();
    let mut i: usize = 0;
    while i < n
        invariant
            n == sm.stats@.len(),
            i <= n,
            forall|a: int, b: int| 0 <= a < b < n && a < i ==> sm.view()[a].0 != sm.view()[b].0,
        decreases n - i,
    {
        let mut j: usize = i + 1;
        while j < n
            invariant
                n == sm.stats@.len(),
                i < n,
                i + 1 <= j <= n,
                forall|a: int, b: int| 0 <= a < b < n && a < i ==> sm.view()[a].0 != sm.view()[b].0,
                forall|b: int| i < b < j ==> sm.view()[i as int].0 != sm.view()[b].0,
            decreases n - j,
        {
            if sm.stats[i].0 == sm.stats[j].0 {
                assert(sm.view()[i as int].0 == sm.view()[j as int].0);
                return false;
            }
            j = j + 1;
        }
        i = i + 1;
    }
    true
}

/// The total of the stats of type `t`, when there are fewer than 2^32
/// stats and the total fits in an `i16`.
pub fn checked_total(sm: &StatManager, t: StatType) -> (r: Option<i16>)
    ensures
        r is Some == (sm.stats@.len() < 0x1_0000_0000 && i16::MIN <= sm.total(t) <= i16::MAX),
        r matches Some(v) ==> v == sm.total(t),
{
    let n = sm.stats.len();
    if n as u64 >= 0x1_0000_0000u64 {
        return None;
    }
    let mut acc: i64 = 0;
    let mut i: usize = 0;
    while i < n
        invariant
            n == sm.stats@.len(),
            n < 0x1_0000_0000,
            i <= n,
            acc == sum_type(sm.view().subrange(0, i as int), t),
            -(i as int) * 32768 <= acc <= (i as int) * 32767,
        decreases n - i,
    {
        proof {
            let s = sm.view().subrange(0, i as int + 1);
            assert(s.drop_last() =~= sm.view().subrange(0, i as int));
            assert(s.last() == sm.view()[i as int]);
            assert(contribution(s.last(), t) == if sm.stats@[i as int].1.stat_type == t { sm.stats@[i as int].1.intensity as int } else { 0 });
            assert(-(i as int) * 32768 - 32768 == -(i as int + 1) * 32768) by (nonlinear_arith);
            assert((i as int) * 32767 + 32767 == (i as int + 1) * 32767) by (nonlinear_arith);
            assert((i as int + 1) * 32767 <= 0x1_0000_0000 * 32767) by (nonlinear_arith)
                requires i + 1 <= 0x1_0000_0000;
            assert((i as int + 1) * 32768 <= 0x1_0000_0000 * 32768) by (nonlinear_arith)
                requires i + 1 <= 0x1_0000_0000;
        }
        if sm.stats[i].1.stat_type == t {
            acc = acc + sm.stats[i].1.intensity as i64;
        }
        i = i + 1;
    }
    proof {
        assert(sm.view().subrange(0, n as int) =~= sm.view());
    }
    if acc < -32768 || acc > 32767 {
        None
    } else {
        Some(acc as i16)
    }
}

/// The cards of a player's pile.
pub fn pile_ref(p: &Player, pile: FrontendPileName) -> (r: &Vec<Card>)
    ensures
        r@ == pile_of(*p, pile),
{
    match pile {
        FrontendPileName::Deck => &p.deck.draw_pile,
        FrontendPileName::Hand => &p.cards_in_hand,
        FrontendPileName::Play => &p.cards_in_play,
        FrontendPileName::Spell => &p.spells,
        FrontendPileName::Exiled => &p.deck.exiled,
        FrontendPileName::Graveyard => &p.deck.graveyard,
    }
}

/// Whether a client position names a card at the table.
pub fn target_ok_check(players: &Vec<Player>, t: &FrontendCardTarget) -> (b: bool)
    ensures
        b == target_ok(players@, *t),
{
    match find_player(players, &t.player_id) {
        Some(q) => {
            proof {
                let s = target_seat(players@, *t);
                crate::effects::lemma_first_named_unique(players@, t.player_id@, q as int, s);
            }
            let pile = pile_ref(&players[q], t.pile);
            t.card_index >= 0 && (t.card_index as usize) < pile.len()
        },
        None => {
            proof {
                assert forall|q: int| !first_named(players@, t.player_id@, q) by {
                    if 0 <= q < players@.len() {
                        assert(players@[q].name@ != t.player_id@);
                    }
                }
            }
            false
        },
    }
}

/// Whether a trigger kind answers a removal for the opponents only.
fn for_opponents(tt: &ActionTriggerType, pile: DeckPile) -> (b: bool)
    ensures
        b == !not_for_opponents(*tt, pile),
{
    match (tt, pile) {
        (ActionTriggerType::OtherCardDestroyed(PhaseTarget::Opponent), DeckPile::Graveyard) => true,
        (ActionTriggerType::OtherCardExiled(PhaseTarget::Opponent), DeckPile::Exiled) => true,
        _ => false,
    }
}

/// Whether no card in play answers a removal to the pile for the
/// opponents only.
pub fn no_opponent_answers_check(players: &Vec<Player>, pile: DeckPile) -> (b: bool)
    ensures
        b == no_opponent_answers(players@, pile),
{
    let mut pi: usize = 0;
    while pi < players.len()
        invariant
            pi <= players@.len(),
            forall|qi: int, ci: int, t: int|
                0 <= qi < pi && 0 <= ci < players@[qi].cards_in_play@.len()
                    && 0 <= t < players@[qi].cards_in_play@[ci].triggers@.len()
                    ==> not_for_opponents(#[trigger] players@[qi].cards_in_play@[ci].triggers@[t].trigger_type, pile),
        decreases players@.len() - pi,
    {
        let cards = &players[pi].cards_in_play;
        let mut ci: usize = 0;
        while ci < cards.len()
            invariant
                pi < players@.len(),
                cards@ == players@[pi as int].cards_in_play@,
                ci <= cards@.len(),
                forall|qi: int, cj: int, t: int|
                    0 <= qi < pi && 0 <= cj < players@[qi].cards_in_play@.len()
                        && 0 <= t < players@[qi].cards_in_play@[cj].triggers@.len()
                        ==> not_for_opponents(#[trigger] players@[qi].cards_in_play@[cj].triggers@[t].trigger_type, pile),
                forall|cj: int, t: int| 0 <= cj < ci && 0 <= t < cards@[cj].triggers@.len()
                    ==> not_for_opponents(#[trigger] cards@[cj].triggers@[t].trigger_type, pile),
            decreases cards@.len() - ci,
        {
            let triggers = &cards[ci].triggers;
            let mut t: usize = 0;
            while t < triggers.len()
                invariant
                    pi < players@.len(),
                    cards@ == players@[pi as int].cards_in_play@,
                    ci < cards@.len(),
                    triggers@ == cards@[ci as int].triggers@,
                    t <= triggers@.len(),
                    forall|u: int| 0 <= u < t ==> not_for_opponents(#[trigger] triggers@[u].trigger_type, pile),
                decreases triggers@.len() - t,
            {
                if for_opponents(&triggers[t].trigger_type, pile) {
                    assert(!not_for_opponents(players@[pi as int].cards_in_play@[ci as int].triggers@[t as int].trigger_type, pile));
                    return false;
                }
                t = t + 1;
            }
            ci = ci + 1;
        }
        pi = pi + 1;
    }
    true
}

/// How many times `m` occurs in the list.
pub fn count_exec(mana: &Vec<ManaType>, m: ManaType) -> (n: usize)
    ensures
        n == count_of(mana@, m),
{
    let mut n: usize = 0;
    let mut i: usize = 0;
    while i < mana.len()
        invariant
            i <= mana@.len(),
            n == count_of(mana@.subrange(0, i as int), m),
            n <= i,
        decreases mana@.len() - i,
    {
        proof {
            assert(mana@.subrange(0, i as int + 1).drop_last() =~= mana@.subrange(0, i as int));
        }
        if mana[i] == m {
            n = n + 1;
        }
        i = i + 1;
    }
    proof {
        assert(mana@.subrange(0, i as int) =~= mana@);
    }
    n
}

/// Whether the pool can take the listed mana without any type passing 255.
pub fn pool_takes(pool: &ManaPool, mana: &Vec<ManaType>) -> (b: bool)
    ensures
        b == forall|t: ManaType| #[trigger] pool.amount(t) + count_of(mana@, t) <= 255,
{
    let w = count_exec(mana, ManaType::White) <= 255 - pool.amount_exec(ManaType::White) as usize;
    let u = count_exec(mana, ManaType::Blue) <= 255 - pool.amount_exec(ManaType::Blue) as usize;
    let k = count_exec(mana, ManaType::Black) <= 255 - pool.amount_exec(ManaType::Black) as usize;
    let r = count_exec(mana, ManaType::Red) <= 255 - pool.amount_exec(ManaType::Red) as usize;
    let g = count_exec(mana, ManaType::Green) <= 255 - pool.amount_exec(ManaType::Green) as usize;
    let c = count_exec(mana, ManaType::Colorless) <= 255 - pool.amount_exec(ManaType::Colorless) as usize;
    proof {
        assert(w && u && k && r && g && c ==> forall|t: ManaType| #[trigger] pool.amount(t) + count_of(mana@, t) <= 255) by {
            if w && u && k && r && g && c {
                assert forall|t: ManaType| #[trigger] pool.amount(t) + count_of(mana@, t) <= 255 by {
                    match t {
                        ManaType::White => {},
                        ManaType::Blue => {},
                        ManaType::Black => {},
                        ManaType::Red => {},
                        ManaType::Green => {},
                        ManaType::Colorless => {},
                    }
                }
            }
        }
        if !(w && u && k && r && g && c) {
            if !w { assert(!(pool.amount(ManaType::White) + count_of(mana@, ManaType::White) <= 255)); }
            if !u { assert(!(pool.amount(ManaType::Blue) + count_of(mana@, ManaType::Blue) <= 255)); }
            if !k { assert(!(pool.amount(ManaType::Black) + count_of(mana@, ManaType::Black) <= 255)); }
            if !r { assert(!(pool.amount(ManaType::Red) + count_of(mana@, ManaType::Red) <= 255)); }
            if !g { assert(!(pool.amount(ManaType::Green) + count_of(mana@, ManaType::Green) <= 255)); }
            if !c { assert(!(pool.amount(ManaType::Colorless) + count_of(mana@, ManaType::Colorless) <= 255)); }
        }
    }
    w && u && k && r && g && c
}

/// Whether a trigger kind is one that the playing of a card does not handle.
fn unhandled_kind(tt: &ActionTriggerType) -> (b: bool)
    ensures
        b == kind_unhandled(*tt),
{
    match tt {
        ActionTriggerType::CreatureTypeCardPlayed(PhaseTarget::Opponent, _) => true,
        ActionTriggerType::CreatureTypeCardPlayed(PhaseTarget::Any, _) => true,
        ActionTriggerType::OtherCardPlayed(PhaseTarget::Opponent) => true,
        ActionTriggerType::OtherCardPlayed(PhaseTarget::Any) => true,
        _ => false,
    }
}

/// Whether no trigger of the card is of a kind the playing of a card does
/// not handle.
pub fn card_handled(c: &Card) -> (b: bool)
    ensures
        b == forall|m: int| 0 <= m < c.triggers@.len() ==> !kind_unhandled(#[trigger] c.triggers@[m].trigger_type),
{
    let mut m: usize = 0;
    while m < c.triggers.len()
        invariant
            m <= c.triggers@.len(),
            forall|u: int| 0 <= u < m ==> !kind_unhandled(#[trigger] c.triggers@[u].trigger_type),
        decreases c.triggers@.len() - m,
    {
        if unhandled_kind(&c.triggers[m].trigger_type) {
            return false;
        }
        m = m + 1;
    }
    true
}

/// Whether no card in play carries a trigger kind the playing of a card
/// does not handle.
pub fn table_handled_check(players: &Vec<Player>) -> (b: bool)
    ensures
        b == crate::execute::table_handled(players@),
{
    let mut pi: usize = 0;
    while pi < players.len()
        invariant
            pi <= players@.len(),
            forall|q: int| 0 <= q < pi ==> crate::execute::cards_handled(#[trigger] players@[q].cards_in_play@),
        decreases players@.len() - pi,
    {
        let cards = &players[pi].cards_in_play;
        let mut j: usize = 0;
        while j < cards.len()
            invariant
                pi < players@.len(),
                cards@ == players@[pi as int].cards_in_play@,
                j <= cards@.len(),
                forall|a: int, m: int| 0 <= a < j && 0 <= m < cards@[a].triggers@.len()
                    ==> !kind_unhandled(#[trigger] cards@[a].triggers@[m].trigger_type),
            decreases cards@.len() - j,
        {
            if !card_handled(&cards[j]) {
                return false;
            }
            j = j + 1;
        }
        pi = pi + 1;
    }
    true
}

/// Whether the stats of every player and of every card in play are well
/// formed.
pub fn stats_wf_check(players: &Vec<Player>) -> (b: bool)
    ensures
        b == crate::effects::stats_wf(players@),
{
    let mut pi: usize = 0;
    while pi < players.len()
        invariant
            pi <= players@.len(),
            forall|q: int| 0 <= q < pi ==> {
                &&& (#[trigger] players@[q]).stat_manager.wf()
                &&& forall|ci: int| 0 <= ci < players@[q].cards_in_play@.len() ==> (#[trigger] players@[q].cards_in_play@[ci]).stats.wf()
            },
        decreases players@.len() - pi,
    {
        if !stats_distinct(&players[pi].stat_manager) {
            return false;
        }
        let cards = &players[pi].cards_in_play;
        let mut j: usize = 0;
        while j < cards.len()
            invariant
                pi < players@.len(),
                cards@ == players@[pi as int].cards_in_play@,
                j <= cards@.len(),
                forall|a: int| 0 <= a < j ==> (#[trigger] cards@[a]).stats.wf(),
            decreases cards@.len() - j,
        {
            if !stats_distinct(&cards[j].stats) {
                return false;
            }
            j = j + 1;
        }
        pi = pi + 1;
    }
    true
}

/// Whether no two waiting abilities share an id.
pub fn abilities_distinct(s: &Vec<Ability>) -> (b: bool)
    ensures
        b == abilities_wf(s@),
{
    let n = s.len();
    let mut i: usize = 0;
    while i < n
        invariant
            n == s@.len(),
            i <= n,
            forall|a: int, b: int| 0 <= a < b < n && a < i ==> s@[a].id@ != s@[b].id@,
        decreases n - i,
    {
        let mut j: usize = i + 1;
        while j < n
            invariant
                n == s@.len(),
                i < n,
                i + 1 <= j <= n,
                forall|a: int, b: int| 0 <= a < b < n && a < i ==> s@[a].id@ != s@[b].id@,
                forall|b: int| i < b < j ==> s@[i as int].id@ != s@[b].id@,
            decreases n - j,
        {
            if s[i].id == s[j].id {
                return false;
            }
            j = j + 1;
        }
        i = i + 1;
    }
    true
}

impl Game {
    /// Whether the card action can be carried out on the game as it stands:
    /// its card is at the table with an owner seated there, and the action
    /// asks for nothing it cannot do.
    pub fn card_action_check(&self, w: &CardActionWrapper) -> (b: bool)
        ensures
            b == card_action_ready(*self, *w),
    {
        let players = &self.players;
        let (pi, pile, k) = match self.find_card_seat(&w.card) {
            Some(x) => x,
            None => {
                proof {
                    assert forall|a: int, b: FrontendPileName, c: int| !found_at(players@, w.card@, a, b, c) by {
                        if found_at(players@, w.card@, a, b, c) {
                            assert(crate::game::pile_holds(pile_of(players@[a], b), w.card@));
                            assert(holds_card(players@[a], w.card@));
                        }
                    }
                }
                return false;
            },
        };
        proof {
            let (a, b, c) = acting_pos(players@, w.card@);
            lemma_found_at_unique(players@, w.card@, pi as int, pile, k as int, a, b, c);
        }
        let card = &pile_ref(&players[pi], pile)[k];
        assert(*card == acting_card(players@, w.card@));
        let owner = match &card.owner {
            Some(n) => n,
            None => return false,
        };
        let o = match find_player(players, owner) {
            Some(o) => o,
            None => {
                proof {
                    assert forall|q: int| !first_named(players@, owner@, q) by {
                        if 0 <= q < players@.len() {
                            assert(players@[q].name@ != owner@);
                        }
                    }
                }
                return false;
            },
        };
        proof {
            crate::effects::lemma_first_named_unique(players@, owner@, o as int, owner_seat(players@, w.card@));
        }
        match &w.action {
            CardAction::Blank(_) | CardAction::TapCard(_) | CardAction::DrawCards(_) => true,
            CardAction::AddStat(_) => stats_distinct(&card.stats),
            CardAction::DeclareAttacker(_) | CardAction::ReturnToHand(_) => match &w.target {
                Some(FrontendTarget::Card(t)) => target_ok_check(players, t),
                _ => true,
            },
            CardAction::DeclareBlocker(_) => match &w.target {
                Some(FrontendTarget::Card(t)) => target_ok_check(players, t),
                _ => false,
            },
            CardAction::CounterSpell(_) => match &w.target {
                Some(FrontendTarget::Card(t)) => target_ok_check(players, t),
                Some(FrontendTarget::Player(_)) => false,
                None => true,
            },
            CardAction::DestroySelf(_) => no_opponent_answers_check(players, DeckPile::Graveyard),
            CardAction::DestroyTarget(_) => match &w.target {
                Some(FrontendTarget::Card(t)) => target_ok_check(players, t) && no_opponent_answers_check(players, DeckPile::Graveyard),
                _ => true,
            },
            CardAction::LifeLink(_) => {
                let l = checked_total(&card.stats, StatType::Lifelink);
                l.is_some() && stats_distinct(&players[o].stat_manager)
            },
            CardAction::CardDamage(_) => match &w.target {
                Some(FrontendTarget::Player(n)) => match find_player(players, n) {
                    Some(q) => {
                        proof {
                            crate::effects::lemma_first_named_unique(players@, n@, q as int, choose|q: int| first_named(players@, n@, q));
                        }
                        let power = checked_total(&card.stats, StatType::Power);
                        let toughness = checked_total(&players[q].stat_manager, StatType::Toughness);
                        match (power, toughness) {
                            (Some(p), Some(t)) => {
                                let d: i32 = p as i32 - t as i32;
                                stats_distinct(&players[q].stat_manager) && -32768 < d && d <= 32767
                            },
                            _ => false,
                        }
                    },
                    None => {
                        proof {
                            assert forall|q: int| !first_named(players@, n@, q) by {
                                if 0 <= q < players@.len() {
                                    assert(players@[q].name@ != n@);
                                }
                            }
                        }
                        true
                    },
                },
                Some(FrontendTarget::Card(_)) => false,
                None => true,
            },
            CardAction::Script(name) => {
                if *name == "ossification_enters".to_string() {
                    match &w.target {
                        Some(FrontendTarget::Card(t)) => target_ok_check(players, t) && abilities_distinct(&self.async_abilities),
                        _ => false,
                    }
                } else if *name == "ossification_exile".to_string() {
                    match &w.target {
                        Some(FrontendTarget::Player(_)) => false,
                        Some(FrontendTarget::Card(t)) => target_ok_check(players, t) && no_opponent_answers_check(players, DeckPile::Exiled),
                        None => true,
                    }
                } else {
                    (*name == "gain_two_life".to_string() || *name == "gain_one_life_for_creature".to_string())
                        && stats_distinct(&players[o].stat_manager)
                }
            },
            CardAction::GenerateMana(a) => match &w.target {
                Some(FrontendTarget::Card(_)) => false,
                _ => pool_takes(&players[o].mana_pool, &a.mana_to_add),
            },
            CardAction::PlayCard(_) => {
                first_of_name(players, pi) && table_handled_check(players) && card_handled(card)
            },
            CardAction::ResetCard(_) => stats_wf_check(players) && self.current_turn.is_some(),
            CardAction::CastAdditional(cost, _, _, _, _, _) => cost_fits(cost) && abilities_distinct(&self.async_abilities),
        }
    }
}

/// Whether the card with the given id is in play with power, toughness
/// and trample that add up within an `i16`.
pub fn fighting_check(players: &Vec<Player>, id: &String) -> (b: bool)
    ensures
        b == fighting(players@, id@),
{
    match find_card_in_play(players, id) {
        Some((pi, ci)) => {
            proof {
                crate::combat::lemma_card_of(players@, id@, pi as int, ci as int);
            }
            let c = &players[pi].cards_in_play[ci];
            checked_total(&c.stats, StatType::Power).is_some()
                && checked_total(&c.stats, StatType::Toughness).is_some()
                && checked_total(&c.stats, StatType::Trample).is_some()
        },
        None => {
            proof {
                assert forall|pi: int, ci: int| !first_in_play(players@, id@, pi, ci) by {
                    assert(!in_play_at(players@, id@, pi, ci));
                }
            }
            false
        },
    }
}

/// Whether every card of the combat is in play with countable stats, every
/// attacked player and card is at the table, and every player's stats are
/// well formed.
pub fn combat_ready_check(c: &Combat, players: &Vec<Player>) -> (b: bool)
    ensures
        b == combat_ready(*c, players@),
{
    let mut j: usize = 0;
    while j < c.blockers.len()
        invariant
            j <= c.blockers@.len(),
            forall|a: int| 0 <= a < j ==> fighting(players@, (#[trigger] c.blockers@[a]).0@) && fighting(players@, c.blockers@[a].1@),
        decreases c.blockers@.len() - j,
    {
        if !fighting_check(players, &c.blockers[j].0) || !fighting_check(players, &c.blockers[j].1) {
            return false;
        }
        j = j + 1;
    }
    let mut k: usize = 0;
    while k < c.attackers.len()
        invariant
            k <= c.attackers@.len(),
            forall|a: int| 0 <= a < k ==> {
                &&& fighting(players@, (#[trigger] c.attackers@[a]).0@)
                &&& match c.attackers@[a].1 {
                    EffectTarget::Player(name) => exists|pi: int| first_named(players@, name@, pi),
                    EffectTarget::Card(id) => fighting(players@, id@),
                }
            },
        decreases c.attackers@.len() - k,
    {
        if !fighting_check(players, &c.attackers[k].0) {
            return false;
        }
        let ok = match &c.attackers[k].1 {
            EffectTarget::Player(name) => match find_player(players, name) {
                Some(_) => true,
                None => {
                    proof {
                        assert forall|q: int| !first_named(players@, name@, q) by {
                            if 0 <= q < players@.len() {
                                assert(players@[q].name@ != name@);
                            }
                        }
                    }
                    false
                },
            },
            EffectTarget::Card(id) => fighting_check(players, id),
        };
        if !ok {
            return false;
        }
        k = k + 1;
    }
    let mut pi: usize = 0;
    while pi < players.len()
        invariant
            pi <= players@.len(),
            forall|q: int| 0 <= q < pi ==> (#[trigger] players@[q]).stat_manager.wf(),
        decreases players@.len() - pi,
    {
        if !stats_distinct(&players[pi].stat_manager) {
            return false;
        }
        pi = pi + 1;
    }
    true
}

impl Game {
    /// Whether the player's action can be carried out on the game as it
    /// stands.
    pub fn player_action_check(&self, w: &PlayerActionWrapper) -> (b: bool)
        ensures
            b == player_action_ready(*self, *w),
    {
        if w.player >= self.players.len() {
            return false;
        }
        match w.action {
            PlayerAction::Combat(_) => combat_ready_check(&self.combat, &self.players) && self.combat.fits_check(&self.players),
            _ => true,
        }
    }
}

/// Whether every player's health can be added up in an `i16`.
pub fn health_check(players: &Vec<Player>) -> (b: bool)
    ensures
        b == crate::game::health_countable(players@),
{
    let mut i: usize = 0;
    while i < players.len()
        invariant
            i <= players@.len(),
            forall|pi: int| 0 <= pi < i ==> {
                &&& (#[trigger] players@[pi]).stat_manager.stats@.len() < 0x1_0000_0000
                &&& i16::MIN <= players@[pi].stat_manager.total(StatType::Health) <= i16::MAX
            },
        decreases players@.len() - i,
    {
        if checked_total(&players[i].stat_manager, StatType::Health).is_none() {
            return false;
        }
        i = i + 1;
    }
    true
}

/// Whether the player at `pi` is the first with its name.
pub fn first_of_name(players: &Vec<Player>, pi: usize) -> (b: bool)
    requires
        pi < players@.len(),
    ensures
        b == first_named(players@, players@[pi as int].name@, pi as int),
{
    let mut j: usize = 0;
    while j < pi
        invariant
            pi < players@.len(),
            j <= pi,
            forall|a: int| 0 <= a < j ==> (#[trigger] players@[a]).name@ != players@[pi as int].name@,
        decreases pi - j,
    {
        if players[j].name == players[pi].name {
            return false;
        }
        j = j + 1;
    }
    true
}

/// Whether no mana type occurs more than 255 times in the cost.
pub fn cost_fits(cost: &Vec<ManaType>) -> (b: bool)
    ensures
        b == crate::player::cost_countable(cost@),
{
    let empty = ManaPool { white: 0, blue: 0, black: 0, red: 0, green: 0, colorless: 0, played_card: false };
    let b = pool_takes(&empty, cost);
    proof {
        assert forall|t: ManaType| #[trigger] empty.amount(t) == 0 by {
            match t {
                ManaType::White => {},
                ManaType::Blue => {},
                ManaType::Black => {},
                ManaType::Red => {},
                ManaType::Green => {},
                ManaType::Colorless => {},
            }
        }
        if b {
            assert forall|m: ManaType| #[trigger] count_of(cost@, m) <= 255 by {
                assert(empty.amount(m) + count_of(cost@, m) <= 255);
            }
        }
        if !b {
            let t = choose|t: ManaType| !(#[trigger] empty.amount(t) + count_of(cost@, t) <= 255);
            assert(!(count_of(cost@, t) <= 255));
        }
    }
    b
}

/// Whether every use count of an ability this turn can still grow by one.
pub fn counts_grow(counts: &Vec<(String, i32)>) -> (b: bool)
    ensures
        b == forall|j: int| 0 <= j < counts@.len() ==> (#[trigger] counts@[j]).1 < i32::MAX,
{
    let mut j: usize = 0;
    while j < counts.len()
        invariant
            j <= counts@.len(),
            forall|a: int| 0 <= a < j ==> (#[trigger] counts@[a]).1 < i32::MAX,
        decreases counts@.len() - j,
    {
        if counts[j].1 == i32::MAX {
            return false;
        }
        j = j + 1;
    }
    true
}

} // verus!

//! Combat: who attacks what, who blocks whom, and how the damage is dealt.
use vstd::prelude::*;
use crate::card::Card;
use crate::effects::{EffectTarget, lemma_first_in_play_unique, lemma_first_named_unique};
use crate::player::Player;
use crate::stat::{Stat, StatType, Stats, insert_all};
use crate::table::{find_player, first_in_play, first_named, in_play_at, before, card_replaced};

verus! {

/// The attacks and blocks declared this combat. Cards are named by id: each
/// attacker with what it attacks, each blocker with the attacker it blocks.
pub struct Combat {
    pub attackers: Vec<(String, EffectTarget)>,
    pub blockers: Vec<(String, String)>,
}

/// The first card in play with the given id.
pub open spec fn card_of(players: Seq<Player>, id: Seq<char>) -> Card {
    let (pi, ci) = choose|pi: int, ci: int| first_in_play(players, id, pi, ci);
    players[pi].cards_in_play@[ci]
}

/// The power of the first card in play with the given id.
pub open spec fn power_of(players: Seq<Player>, id: Seq<char>) -> int {
    card_of(players, id).stats.total(StatType::Power)
}

/// The toughness of the first card in play with the given id.
pub open spec fn toughness_of(players: Seq<Player>, id: Seq<char>) -> int {
    card_of(players, id).stats.total(StatType::Toughness)
}

/// Whether the first card in play with the given id tramples.
pub open spec fn tramples(players: Seq<Player>, id: Seq<char>) -> bool {
    card_of(players, id).stats.total(StatType::Trample) > 0
}

/// A value fits an `i16`.
pub open spec fn fits(x: int) -> bool {
    i16::MIN <= x <= i16::MAX
}

/// `x - y` held within the bounds of an `i16`.
pub open spec fn saturating_sub(x: int, y: int) -> int {
    if x - y < i16::MIN { i16::MIN as int } else if x - y > i16::MAX { i16::MAX as int } else { x - y }
}

/// Where combat stands: the damage each card touched so far has taken, by
/// card id; what each attacker dealt to players, by card id; the cards found
/// destroyed, in order; the hits on players, each as the player's name, the
/// attacker's name and the amount; and whether every sum so far fit an `i16`.
pub type CombatState = (Map<Seq<char>, int>, Map<Seq<char>, int>, Seq<Seq<char>>, Seq<(Seq<char>, Seq<char>, int)>, bool);

/// Nothing has happened yet.
pub open spec fn combat_start() -> CombatState {
    (Map::empty(), Map::empty(), Seq::empty(), Seq::empty(), true)
}

/// The damage the card with the given id has taken so far.
pub open spec fn damage_so_far(s: CombatState, players: Seq<Player>, id: Seq<char>) -> int {
    if s.0.contains_key(id) { s.0[id] } else { card_of(players, id).damage_taken as int }
}

/// A card takes damage; it is noted as destroyed when its damage reaches its
/// toughness.
pub open spec fn take_damage(s: CombatState, players: Seq<Player>, id: Seq<char>, amount: int, check: bool) -> CombatState {
    let d = damage_so_far(s, players, id) + amount;
    (s.0.insert(id, d), s.1, if check && d >= toughness_of(players, id) { s.2.push(id) } else { s.2 }, s.3, s.4 && fits(d))
}

/// A blocker and the attacker it blocks deal each other their power.
pub open spec fn block_step(s: CombatState, players: Seq<Player>, blocker: Seq<char>, attacker: Seq<char>) -> CombatState {
    let s1 = take_damage(s, players, blocker, power_of(players, attacker), true);
    take_damage(s1, players, attacker, power_of(players, blocker), true)
}

/// The blocks, resolved in order.
pub open spec fn blocks_fold(blocks: Seq<(String, String)>, players: Seq<Player>) -> CombatState
    decreases blocks.len(),
{
    if blocks.len() == 0 {
        combat_start()
    } else {
        block_step(blocks_fold(blocks.drop_last(), players), players, blocks.last().0@, blocks.last().1@)
    }
}

/// Whether the attacker is blocked, the sum of its blockers' toughness, and
/// whether every partial sum fit an `i16`.
pub open spec fn blockers_of(blocks: Seq<(String, String)>, players: Seq<Player>, attacker: Seq<char>) -> (bool, int, bool)
    decreases blocks.len(),
{
    if blocks.len() == 0 {
        (false, 0, true)
    } else {
        let (blocked, total, ok) = blockers_of(blocks.drop_last(), players, attacker);
        if blocks.last().1@ == attacker {
            let t = total + toughness_of(players, blocks.last().0@);
            (true, t, ok && fits(t))
        } else {
            (blocked, total, ok)
        }
    }
}

/// The damage an attacker deals past its blockers: all of its power when it
/// is unblocked, what its power exceeds its blockers' toughness by when it is
/// blocked and tramples, and nothing otherwise.
pub open spec fn attack_damage(blocks: Seq<(String, String)>, players: Seq<Player>, attacker: Seq<char>) -> Option<int> {
    let (blocked, total, _) = blockers_of(blocks, players, attacker);
    let power = power_of(players, attacker);
    if !blocked {
        Some(power)
    } else if tramples(players, attacker) && saturating_sub(power, total) > 0 {
        Some(saturating_sub(power, total))
    } else {
        None
    }
}

/// An attacker deals its damage past its blockers to what it attacks: a
/// player loses that much health, or a card takes that much damage.
pub open spec fn attack_step(s: CombatState, blocks: Seq<(String, String)>, players: Seq<Player>, attacker: Seq<char>, target: EffectTarget) -> CombatState {
    let ok = s.4 && blockers_of(blocks, players, attacker).2;
    match attack_damage(blocks, players, attacker) {
        None => (s.0, s.1, s.2, s.3, ok),
        Some(x) => {
            let h = hit_state(s, players, attacker, target, x);
            (h.0, h.1, h.2, h.3, ok && h.4)
        },
    }
}

/// An attacker deals `x` damage to what it attacks: a player loses that much
/// health and the attacker notes it dealt it, or a card takes that much
/// damage.
pub open spec fn hit_state(s: CombatState, players: Seq<Player>, attacker: Seq<char>, target: EffectTarget, x: int) -> CombatState {
    match target {
        EffectTarget::Player(name) => (s.0, s.1.insert(attacker, x), s.2, s.3.push((name@, card_of(players, attacker).name@, x)), s.4 && fits(-x)),
        EffectTarget::Card(id) => take_damage(s, players, id@, x, false),
    }
}

/// The attacks, resolved in order after the blocks.
pub open spec fn attacks_fold(attacks: Seq<(String, EffectTarget)>, blocks: Seq<(String, String)>, players: Seq<Player>) -> CombatState
    decreases attacks.len(),
{
    if attacks.len() == 0 {
        blocks_fold(blocks, players)
    } else {
        attack_step(attacks_fold(attacks.drop_last(), blocks, players), blocks, players, attacks.last().0@, attacks.last().1)
    }
}

/// How the declared combat ends on the given table.
pub open spec fn combat_outcome(c: Combat, players: Seq<Player>) -> CombatState {
    attacks_fold(c.attackers@, c.blockers@, players)
}

/// The card is in play and its stats can be added up in an `i16`.
pub open spec fn fighting(players: Seq<Player>, id: Seq<char>) -> bool {
    &&& exists|pi: int, ci: int| first_in_play(players, id, pi, ci)
    &&& card_of(players, id).stats.stats@.len() < 0x1_0000_0000
    &&& fits(card_of(players, id).stats.total(StatType::Power))
    &&& fits(card_of(players, id).stats.total(StatType::Toughness))
    &&& fits(card_of(players, id).stats.total(StatType::Trample))
}

/// Every card of the combat is in play with countable stats, every attacked
/// player and card is at the table, and every player's stats are well formed.
pub open spec fn combat_ready(c: Combat, players: Seq<Player>) -> bool {
    &&& forall|j: int| 0 <= j < c.blockers@.len() ==> fighting(players, (#[trigger] c.blockers@[j]).0@) && fighting(players, c.blockers@[j].1@)
    &&& forall|j: int| 0 <= j < c.attackers@.len() ==> {
        &&& fighting(players, (#[trigger] c.attackers@[j]).0@)
        &&& match c.attackers@[j].1 {
            EffectTarget::Player(name) => exists|pi: int| first_named(players, name@, pi),
            EffectTarget::Card(id) => fighting(players, id@),
        }
    }
    &&& forall|pi: int| 0 <= pi < players.len() ==> (#[trigger] players[pi]).stat_manager.wf()
}

/// `cur` is the table `old` after combat has gone as `s` says for the cards:
/// every card in play has its damage taken and dealt replaced by what `s`
/// holds for it, when it is the first in play with its id, and nothing else
/// of the cards changed; the players changed in their stats at most.
pub open spec fn combat_frame(old: Seq<Player>, cur: Seq<Player>, s: CombatState) -> bool {
    &&& cur.len() == old.len()
    &&& forall|pi: int| 0 <= pi < old.len() ==> {
        &&& #[trigger] cur[pi] == (Player { cards_in_play: cur[pi].cards_in_play, stat_manager: cur[pi].stat_manager, ..old[pi] })
        &&& cur[pi].cards_in_play@.len() == old[pi].cards_in_play@.len()
        &&& cur[pi].stat_manager.wf()
        &&& forall|ci: int| 0 <= ci < old[pi].cards_in_play@.len() ==> {
            let o = old[pi].cards_in_play@[ci];
            let first = first_in_play(old, o.id@, pi, ci);
            #[trigger] cur[pi].cards_in_play@[ci] == (Card {
                damage_taken: if first && s.0.contains_key(o.id@) { s.0[o.id@] as i16 } else { o.damage_taken },
                damage_dealt_to_players: if first && s.1.contains_key(o.id@) { s.1[o.id@] as i16 } else { o.damage_dealt_to_players },
                ..o
            })
        }
    }
}

/// The hits on the player at seat `pi`, each as the attacker's name and the
/// health lost.
pub open spec fn hits_on(hits: Seq<(Seq<char>, Seq<char>, int)>, players: Seq<Player>, pi: int) -> Seq<(Seq<char>, int)>
    decreases hits.len(),
{
    if hits.len() == 0 {
        Seq::empty()
    } else {
        let rest = hits_on(hits.drop_last(), players, pi);
        if first_named(players, hits.last().0, pi) { rest.push((hits.last().1, hits.last().2)) } else { rest }
    }
}

/// The id a hit is recorded under: `damage-`, the attacker's name, `-`, and
/// a fresh ULID.
pub open spec fn hit_id(attacker_name: Seq<char>, id: Seq<char>) -> bool {
    id.len() == 7 + attacker_name.len() + 1 + 26
        && id.subrange(0, 7) == "damage-"@
        && id.subrange(7, 7 + attacker_name.len() as int) == attacker_name
        && id[7 + attacker_name.len() as int] == '-'
}

/// The stats of the player at seat `pi` are the old ones with each hit on the
/// player stored under the matching one of `ids`.
pub open spec fn hits_recorded_with(old: Seq<Player>, cur: Seq<Player>, hits: Seq<(Seq<char>, Seq<char>, int)>, pi: int, ids: Seq<Seq<char>>) -> bool {
    let on = hits_on(hits, old, pi);
    &&& ids.len() == on.len()
    &&& forall|k: int| 0 <= k < ids.len() ==> hit_id(on[k].0, #[trigger] ids[k])
    &&& cur[pi].stat_manager.as_map() == insert_all(old[pi].stat_manager.as_map(), ids,
        on.map_values(|h: (Seq<char>, int)| Stat { stat_type: StatType::Health, intensity: (-h.1) as i16 }))
}

/// The stats of the player at seat `pi` record each hit on the player under
/// an id of its own.
pub open spec fn player_hits_recorded(old: Seq<Player>, cur: Seq<Player>, hits: Seq<(Seq<char>, Seq<char>, int)>, pi: int) -> bool {
    exists|ids: Seq<Seq<char>>| #[trigger] hits_recorded_with(old, cur, hits, pi, ids)
}

/// Every player's stats are the old ones with each hit on the player stored
/// under an id of its own.
pub open spec fn hits_recorded(old: Seq<Player>, cur: Seq<Player>, hits: Seq<(Seq<char>, Seq<char>, int)>) -> bool {
    forall|pi: int| 0 <= pi < old.len() ==> #[trigger] player_hits_recorded(old, cur, hits, pi)
}

/// Two tables have the same cards in the same places, with the same ids and
/// stats, and the same players in the same seats.
pub open spec fn same_layout(a: Seq<Player>, b: Seq<Player>) -> bool {
    &&& a.len() == b.len()
    &&& forall|pi: int| 0 <= pi < a.len() ==> {
        &&& (#[trigger] a[pi]).name@ == b[pi].name@
        &&& a[pi].cards_in_play@.len() == b[pi].cards_in_play@.len()
        &&& forall|ci: int| 0 <= ci < a[pi].cards_in_play@.len() ==> {
            &&& (#[trigger] a[pi].cards_in_play@[ci]).id@ == b[pi].cards_in_play@[ci].id@
            &&& a[pi].cards_in_play@[ci].stats == b[pi].cards_in_play@[ci].stats
            &&& a[pi].cards_in_play@[ci].name@ == b[pi].cards_in_play@[ci].name@
        }
    }
}

pub proof fn lemma_frame_layout(old: Seq<Player>, cur: Seq<Player>, s: CombatState)
    requires
        combat_frame(old, cur, s),
    ensures
        same_layout(old, cur),
{
    assert forall|pi: int| 0 <= pi < old.len() implies {
        &&& (#[trigger] old[pi]).name@ == cur[pi].name@
        &&& old[pi].cards_in_play@.len() == cur[pi].cards_in_play@.len()
        &&& forall|ci: int| 0 <= ci < old[pi].cards_in_play@.len() ==> {
            &&& (#[trigger] old[pi].cards_in_play@[ci]).id@ == cur[pi].cards_in_play@[ci].id@
            &&& old[pi].cards_in_play@[ci].stats == cur[pi].cards_in_play@[ci].stats
            &&& old[pi].cards_in_play@[ci].name@ == cur[pi].cards_in_play@[ci].name@
        }
    } by {
        assert(cur[pi] == (Player { cards_in_play: cur[pi].cards_in_play, stat_manager: cur[pi].stat_manager, ..old[pi] }));
        assert forall|ci: int| 0 <= ci < old[pi].cards_in_play@.len() implies {
            &&& (#[trigger] old[pi].cards_in_play@[ci]).id@ == cur[pi].cards_in_play@[ci].id@
            &&& old[pi].cards_in_play@[ci].stats == cur[pi].cards_in_play@[ci].stats
            &&& old[pi].cards_in_play@[ci].name@ == cur[pi].cards_in_play@[ci].name@
        } by {
            assert(cur[pi].cards_in_play@[ci] == (Card {
                damage_taken: cur[pi].cards_in_play@[ci].damage_taken,
                damage_dealt_to_players: cur[pi].cards_in_play@[ci].damage_dealt_to_players,
                ..old[pi].cards_in_play@[ci]
            }));
        }
    }
}

pub proof fn lemma_layout_first(a: Seq<Player>, b: Seq<Player>, id: Seq<char>, pi: int, ci: int)
    requires
        same_layout(a, b),
    ensures
        first_in_play(a, id, pi, ci) == first_in_play(b, id, pi, ci),
        forall|pj: int, cj: int| #[trigger] in_play_at(a, id, pj, cj) == in_play_at(b, id, pj, cj),
{
    assert forall|pj: int, cj: int| #[trigger] in_play_at(a, id, pj, cj) == in_play_at(b, id, pj, cj) by {
        if 0 <= pj < a.len() && 0 <= cj < a[pj].cards_in_play@.len() {
            assert(a[pj].cards_in_play@[cj].id@ == b[pj].cards_in_play@[cj].id@);
        }
    }
    if first_in_play(a, id, pi, ci) {
        assert(in_play_at(a, id, pi, ci) == in_play_at(b, id, pi, ci));
        assert forall|pj: int, cj: int| before(pj, cj, pi, ci) implies !#[trigger] in_play_at(b, id, pj, cj) by {
            assert(in_play_at(a, id, pj, cj) == in_play_at(b, id, pj, cj));
        }
    }
    if first_in_play(b, id, pi, ci) {
        assert(in_play_at(a, id, pi, ci) == in_play_at(b, id, pi, ci));
        assert forall|pj: int, cj: int| before(pj, cj, pi, ci) implies !#[trigger] in_play_at(a, id, pj, cj) by {
            assert(in_play_at(a, id, pj, cj) == in_play_at(b, id, pj, cj));
        }
    }
}

pub proof fn lemma_layout_named(a: Seq<Player>, b: Seq<Player>, name: Seq<char>, pi: int)
    requires
        same_layout(a, b),
    ensures
        first_named(a, name, pi) == first_named(b, name, pi),
{
    if 0 <= pi < a.len() {
        assert(a[pi].name@ == b[pi].name@);
        if first_named(a, name, pi) {
            assert forall|j: int| 0 <= j < pi implies (#[trigger] b[j]).name@ != name by {
                assert(a[j].name@ == b[j].name@);
            }
        }
        if first_named(b, name, pi) {
            assert forall|j: int| 0 <= j < pi implies (#[trigger] a[j]).name@ != name by {
                assert(a[j].name@ == b[j].name@);
            }
        }
    }
}

/// Where the first card in play with the given id lies.
fn position_of(players: &Vec<Player>, id: &String) -> (r: (usize, usize))
    requires
        exists|pi: int, ci: int| first_in_play(players@, id@, pi, ci),
    ensures
        first_in_play(players@, id@, r.0 as int, r.1 as int),
{
    match crate::table::find_card_in_play(players, id) {
        Some(r) => r,
        None => {
            proof {
                let (pi, ci) = choose|pi: int, ci: int| first_in_play(players@, id@, pi, ci);
                assert(in_play_at(players@, id@, pi, ci));
            }
            (0, 0)
        },
    }
}

/// Adds damage to the card at `(pi, ci)`.
fn add_damage(players: &mut Vec<Player>, pi: usize, ci: usize, amount: i16)
    requires
        pi < old(players)@.len(),
        ci < old(players)@[pi as int].cards_in_play@.len(),
        fits(old(players)@[pi as int].cards_in_play@[ci as int].damage_taken + amount),
    ensures
        card_replaced(old(players)@, final(players)@, pi as int, ci as int, Card {
            damage_taken: (old(players)@[pi as int].cards_in_play@[ci as int].damage_taken + amount) as i16,
            ..old(players)@[pi as int].cards_in_play@[ci as int]
        }),
{
    let ghost p0 = players@[pi as int];
    let mut p = players.remove(pi);
    let mut c = p.cards_in_play.remove(ci);
    c.damage_taken = c.damage_taken + amount;
    p.cards_in_play.insert(ci, c);
    players.insert(pi, p);
    proof {
        assert(players@[pi as int].cards_in_play@ =~= p0.cards_in_play@.update(ci as int, c));
        assert forall|j: int| 0 <= j < old(players)@.len() && j != pi implies #[trigger] players@[j] == old(players)@[j] by {
            if j < pi {
                assert(players@[j] == old(players)@[j]);
            } else {
                assert(players@[j] == old(players)@[j]);
            }
        }
    }
}

/// Sets what the card at `(pi, ci)` dealt to players.
fn set_dealt(players: &mut Vec<Player>, pi: usize, ci: usize, amount: i16)
    requires
        pi < old(players)@.len(),
        ci < old(players)@[pi as int].cards_in_play@.len(),
    ensures
        card_replaced(old(players)@, final(players)@, pi as int, ci as int, Card {
            damage_dealt_to_players: amount,
            ..old(players)@[pi as int].cards_in_play@[ci as int]
        }),
{
    let ghost p0 = players@[pi as int];
    let mut p = players.remove(pi);
    let mut c = p.cards_in_play.remove(ci);
    c.damage_dealt_to_players = amount;
    p.cards_in_play.insert(ci, c);
    players.insert(pi, p);
    proof {
        assert(players@[pi as int].cards_in_play@ =~= p0.cards_in_play@.update(ci as int, c));
        assert forall|j: int| 0 <= j < old(players)@.len() && j != pi implies #[trigger] players@[j] == old(players)@[j] by {
            if j < pi {
                assert(players@[j] == old(players)@[j]);
            } else {
                assert(players@[j] == old(players)@[j]);
            }
        }
    }
}

/// Stores a stat among the stats of the player at seat `pi`.
fn add_player_stat(players: &mut Vec<Player>, pi: usize, id: String, stat: Stat)
    requires
        pi < old(players)@.len(),
        old(players)@[pi as int].stat_manager.wf(),
    ensures
        final(players)@ == old(players)@.update(pi as int, final(players)@[pi as int]),
        final(players)@[pi as int] == (Player { stat_manager: final(players)@[pi as int].stat_manager, ..old(players)@[pi as int] }),
        final(players)@[pi as int].stat_manager.wf(),
        final(players)@[pi as int].stat_manager.as_map() == old(players)@[pi as int].stat_manager.as_map().insert(id@, stat),
{
    let mut p = players.remove(pi);
    p.stat_manager.add_stat(id, stat);
    players.insert(pi, p);
    proof {
        assert(players@ =~= old(players)@.update(pi as int, p));
    }
}

/// Every damage and dealt amount recorded fits an `i16`.
pub open spec fn state_fits(s: CombatState) -> bool {
    &&& forall|id: Seq<char>| #[trigger] s.0.contains_key(id) ==> fits(s.0[id])
    &&& forall|id: Seq<char>| #[trigger] s.1.contains_key(id) ==> fits(s.1[id])
}

pub proof fn lemma_card_of(players: Seq<Player>, id: Seq<char>, pi: int, ci: int)
    requires
        first_in_play(players, id, pi, ci),
    ensures
        card_of(players, id) == players[pi].cards_in_play@[ci],
{
    let (qi, qj) = choose|qi: int, qj: int| first_in_play(players, id, qi, qj);
    lemma_first_in_play_unique(players, id, pi, ci, qi, qj);
}

pub proof fn lemma_frame_read(old: Seq<Player>, cur: Seq<Player>, s: CombatState, id: Seq<char>, pi: int, ci: int)
    requires
        combat_frame(old, cur, s),
        state_fits(s),
        first_in_play(old, id, pi, ci),
    ensures
        cur[pi].cards_in_play@[ci].damage_taken == damage_so_far(s, old, id),
        cur[pi].cards_in_play@[ci].stats == card_of(old, id).stats,
        cur[pi].cards_in_play@[ci].name == card_of(old, id).name,
        cur[pi].cards_in_play@[ci].id@ == id,
        first_in_play(cur, id, pi, ci),
{
    lemma_card_of(old, id, pi, ci);
    lemma_frame_layout(old, cur, s);
    lemma_layout_first(old, cur, id, pi, ci);
    let o = old[pi].cards_in_play@[ci];
    assert(cur[pi].cards_in_play@[ci] == (Card {
        damage_taken: if s.0.contains_key(o.id@) { s.0[o.id@] as i16 } else { o.damage_taken },
        damage_dealt_to_players: if s.1.contains_key(o.id@) { s.1[o.id@] as i16 } else { o.damage_dealt_to_players },
        ..o
    }));
}

pub proof fn lemma_frame_damage(old: Seq<Player>, cur: Seq<Player>, new: Seq<Player>, s: CombatState, s2: CombatState, id: Seq<char>, pi: int, ci: int, d: int)
    requires
        combat_frame(old, cur, s),
        first_in_play(old, id, pi, ci),
        fits(d),
        card_replaced(cur, new, pi, ci, Card { damage_taken: d as i16, ..cur[pi].cards_in_play@[ci] }),
        s2.0 == s.0.insert(id, d),
        s2.1 == s.1,
    ensures
        combat_frame(old, new, s2),
{
    assert forall|qi: int| 0 <= qi < old.len() implies {
        &&& #[trigger] new[qi] == (Player { cards_in_play: new[qi].cards_in_play, stat_manager: new[qi].stat_manager, ..old[qi] })
        &&& new[qi].cards_in_play@.len() == old[qi].cards_in_play@.len()
        &&& new[qi].stat_manager.wf()
        &&& forall|cj: int| 0 <= cj < old[qi].cards_in_play@.len() ==> {
            let o = old[qi].cards_in_play@[cj];
            let first = first_in_play(old, o.id@, qi, cj);
            #[trigger] new[qi].cards_in_play@[cj] == (Card {
                damage_taken: if first && s2.0.contains_key(o.id@) { s2.0[o.id@] as i16 } else { o.damage_taken },
                damage_dealt_to_players: if first && s2.1.contains_key(o.id@) { s2.1[o.id@] as i16 } else { o.damage_dealt_to_players },
                ..o
            })
        }
    } by {
        assert(cur[qi] == (Player { cards_in_play: cur[qi].cards_in_play, stat_manager: cur[qi].stat_manager, ..old[qi] }));
        assert forall|cj: int| 0 <= cj < old[qi].cards_in_play@.len() implies {
            let o = old[qi].cards_in_play@[cj];
            let first = first_in_play(old, o.id@, qi, cj);
            #[trigger] new[qi].cards_in_play@[cj] == (Card {
                damage_taken: if first && s2.0.contains_key(o.id@) { s2.0[o.id@] as i16 } else { o.damage_taken },
                damage_dealt_to_players: if first && s2.1.contains_key(o.id@) { s2.1[o.id@] as i16 } else { o.damage_dealt_to_players },
                ..o
            })
        } by {
            let o = old[qi].cards_in_play@[cj];
            assert(cur[qi].cards_in_play@[cj] == (Card {
                damage_taken: if first_in_play(old, o.id@, qi, cj) && s.0.contains_key(o.id@) { s.0[o.id@] as i16 } else { o.damage_taken },
                damage_dealt_to_players: if first_in_play(old, o.id@, qi, cj) && s.1.contains_key(o.id@) { s.1[o.id@] as i16 } else { o.damage_dealt_to_players },
                ..o
            }));
            if qi == pi && cj == ci {
                assert(o.id@ == id);
            } else {
                if qi == pi {
                    assert(new[qi].cards_in_play@[cj] == cur[qi].cards_in_play@[cj]);
                } else {
                    assert(new[qi] == cur[qi]);
                }
                if o.id@ == id && first_in_play(old, o.id@, qi, cj) {
                    lemma_first_in_play_unique(old, id, pi, ci, qi, cj);
                }
            }
        }
    }
}

pub proof fn lemma_frame_dealt(old: Seq<Player>, cur: Seq<Player>, new: Seq<Player>, s: CombatState, s2: CombatState, id: Seq<char>, pi: int, ci: int, d: int)
    requires
        combat_frame(old, cur, s),
        first_in_play(old, id, pi, ci),
        fits(d),
        card_replaced(cur, new, pi, ci, Card { damage_dealt_to_players: d as i16, ..cur[pi].cards_in_play@[ci] }),
        s2.0 == s.0,
        s2.1 == s.1.insert(id, d),
    ensures
        combat_frame(old, new, s2),
{
    assert forall|qi: int| 0 <= qi < old.len() implies {
        &&& #[trigger] new[qi] == (Player { cards_in_play: new[qi].cards_in_play, stat_manager: new[qi].stat_manager, ..old[qi] })
        &&& new[qi].cards_in_play@.len() == old[qi].cards_in_play@.len()
        &&& new[qi].stat_manager.wf()
        &&& forall|cj: int| 0 <= cj < old[qi].cards_in_play@.len() ==> {
            let o = old[qi].cards_in_play@[cj];
            let first = first_in_play(old, o.id@, qi, cj);
            #[trigger] new[qi].cards_in_play@[cj] == (Card {
                damage_taken: if first && s2.0.contains_key(o.id@) { s2.0[o.id@] as i16 } else { o.damage_taken },
                damage_dealt_to_players: if first && s2.1.contains_key(o.id@) { s2.1[o.id@] as i16 } else { o.damage_dealt_to_players },
                ..o
            })
        }
    } by {
        assert(cur[qi] == (Player { cards_in_play: cur[qi].cards_in_play, stat_manager: cur[qi].stat_manager, ..old[qi] }));
        assert forall|cj: int| 0 <= cj < old[qi].cards_in_play@.len() implies {
            let o = old[qi].cards_in_play@[cj];
            let first = first_in_play(old, o.id@, qi, cj);
            #[trigger] new[qi].cards_in_play@[cj] == (Card {
                damage_taken: if first && s2.0.contains_key(o.id@) { s2.0[o.id@] as i16 } else { o.damage_taken },
                damage_dealt_to_players: if first && s2.1.contains_key(o.id@) { s2.1[o.id@] as i16 } else { o.damage_dealt_to_players },
                ..o
            })
        } by {
            let o = old[qi].cards_in_play@[cj];
            assert(cur[qi].cards_in_play@[cj] == (Card {
                damage_taken: if first_in_play(old, o.id@, qi, cj) && s.0.contains_key(o.id@) { s.0[o.id@] as i16 } else { o.damage_taken },
                damage_dealt_to_players: if first_in_play(old, o.id@, qi, cj) && s.1.contains_key(o.id@) { s.1[o.id@] as i16 } else { o.damage_dealt_to_players },
                ..o
            }));
            if qi == pi && cj == ci {
                assert(o.id@ == id);
            } else {
                if qi == pi {
                    assert(new[qi].cards_in_play@[cj] == cur[qi].cards_in_play@[cj]);
                } else {
                    assert(new[qi] == cur[qi]);
                }
                if o.id@ == id && first_in_play(old, o.id@, qi, cj) {
                    lemma_first_in_play_unique(old, id, pi, ci, qi, cj);
                }
            }
        }
    }
}

pub proof fn lemma_blocks_ok_prefix(blocks: Seq<(String, String)>, players: Seq<Player>, k: int)
    requires
        0 <= k <= blocks.len(),
        blocks_fold(blocks, players).4,
    ensures
        blocks_fold(blocks.subrange(0, k), players).4,
    decreases blocks.len(),
{
    if k == blocks.len() {
        assert(blocks.subrange(0, k) =~= blocks);
    } else {
        lemma_blocks_ok_prefix(blocks.drop_last(), players, k);
        assert(blocks.drop_last().subrange(0, k) =~= blocks.subrange(0, k));
    }
}

pub proof fn lemma_attacks_ok_prefix(attacks: Seq<(String, EffectTarget)>, blocks: Seq<(String, String)>, players: Seq<Player>, k: int)
    requires
        0 <= k <= attacks.len(),
        attacks_fold(attacks, blocks, players).4,
    ensures
        attacks_fold(attacks.subrange(0, k), blocks, players).4,
        blocks_fold(blocks, players).4,
    decreases attacks.len(),
{
    if attacks.len() > 0 {
        lemma_attacks_ok_prefix(attacks.drop_last(), blocks, players, if k == attacks.len() { 0 } else { k });
        if k < attacks.len() {
            assert(attacks.drop_last().subrange(0, k) =~= attacks.subrange(0, k));
        } else {
            assert(attacks.subrange(0, k) =~= attacks);
        }
    } else {
        assert(attacks.subrange(0, k) =~= attacks);
    }
}

pub proof fn lemma_blockers_ok_prefix(blocks: Seq<(String, String)>, players: Seq<Player>, attacker: Seq<char>, k: int)
    requires
        0 <= k <= blocks.len(),
        blockers_of(blocks, players, attacker).2,
    ensures
        blockers_of(blocks.subrange(0, k), players, attacker).2,
    decreases blocks.len(),
{
    if k == blocks.len() {
        assert(blocks.subrange(0, k) =~= blocks);
    } else {
        lemma_blockers_ok_prefix(blocks.drop_last(), players, attacker, k);
        assert(blocks.drop_last().subrange(0, k) =~= blocks.subrange(0, k));
    }
}

pub proof fn lemma_frame_start(players: Seq<Player>)
    requires
        forall|pi: int| 0 <= pi < players.len() ==> (#[trigger] players[pi]).stat_manager.wf(),
    ensures
        combat_frame(players, players, combat_start()),
        state_fits(combat_start()),
        hits_recorded(players, players, combat_start().3),
{
    assert forall|pi: int| 0 <= pi < players.len() implies #[trigger] player_hits_recorded(players, players, combat_start().3, pi) by {
        assert(hits_recorded_with(players, players, combat_start().3, pi, Seq::empty()));
    }
}

pub proof fn lemma_frame_stats(old: Seq<Player>, cur: Seq<Player>, new: Seq<Player>, s: CombatState, pi: int)
    requires
        combat_frame(old, cur, s),
        0 <= pi < cur.len(),
        new == cur.update(pi, new[pi]),
        new[pi] == (Player { stat_manager: new[pi].stat_manager, ..cur[pi] }),
        new[pi].stat_manager.wf(),
    ensures
        combat_frame(old, new, s),
{
    assert forall|qi: int| 0 <= qi < old.len() implies {
        &&& #[trigger] new[qi] == (Player { cards_in_play: new[qi].cards_in_play, stat_manager: new[qi].stat_manager, ..old[qi] })
        &&& new[qi].cards_in_play@.len() == old[qi].cards_in_play@.len()
        &&& new[qi].stat_manager.wf()
        &&& forall|cj: int| 0 <= cj < old[qi].cards_in_play@.len() ==> {
            let o = old[qi].cards_in_play@[cj];
            let first = first_in_play(old, o.id@, qi, cj);
            #[trigger] new[qi].cards_in_play@[cj] == (Card {
                damage_taken: if first && s.0.contains_key(o.id@) { s.0[o.id@] as i16 } else { o.damage_taken },
                damage_dealt_to_players: if first && s.1.contains_key(o.id@) { s.1[o.id@] as i16 } else { o.damage_dealt_to_players },
                ..o
            })
        }
    } by {
        assert(cur[qi] == (Player { cards_in_play: cur[qi].cards_in_play, stat_manager: cur[qi].stat_manager, ..old[qi] }));
        if qi == pi {
            assert(new[qi].cards_in_play == cur[qi].cards_in_play);
        } else {
            assert(new[qi] == cur[qi]);
        }
    }
}

pub proof fn lemma_hits_kept(old: Seq<Player>, cur: Seq<Player>, new: Seq<Player>, hits: Seq<(Seq<char>, Seq<char>, int)>)
    requires
        hits_recorded(old, cur, hits),
        new.len() == cur.len(),
        cur.len() == old.len(),
        forall|pi: int| 0 <= pi < cur.len() ==> (#[trigger] new[pi]).stat_manager == cur[pi].stat_manager,
    ensures
        hits_recorded(old, new, hits),
{
    assert forall|pi: int| 0 <= pi < old.len() implies #[trigger] player_hits_recorded(old, new, hits, pi) by {
        assert(player_hits_recorded(old, cur, hits, pi));
        let ids = choose|ids: Seq<Seq<char>>| hits_recorded_with(old, cur, hits, pi, ids);
        assert(new[pi].stat_manager == cur[pi].stat_manager);
        assert(hits_recorded_with(old, new, hits, pi, ids));
    }
}

pub proof fn lemma_hit_recorded(
    old: Seq<Player>,
    cur: Seq<Player>,
    new: Seq<Player>,
    hits: Seq<(Seq<char>, Seq<char>, int)>,
    h: (Seq<char>, Seq<char>, int),
    pi: int,
    id: Seq<char>,
)
    requires
        hits_recorded(old, cur, hits),
        cur.len() == old.len(),
        first_named(old, h.0, pi),
        hit_id(h.1, id),
        new == cur.update(pi, new[pi]),
        new[pi].stat_manager.as_map() == cur[pi].stat_manager.as_map().insert(id, Stat { stat_type: StatType::Health, intensity: (-h.2) as i16 }),
    ensures
        hits_recorded(old, new, hits.push(h)),
{
    assert(hits.push(h).drop_last() =~= hits);
    assert forall|qi: int| 0 <= qi < old.len() implies #[trigger] player_hits_recorded(old, new, hits.push(h), qi) by {
        assert(player_hits_recorded(old, cur, hits, qi));
        let ids = choose|ids: Seq<Seq<char>>| hits_recorded_with(old, cur, hits, qi, ids);
        let on = hits_on(hits, old, qi);
        let f = |g: (Seq<char>, int)| Stat { stat_type: StatType::Health, intensity: (-g.1) as i16 };
        if qi == pi {
            let ids2 = ids.push(id);
            assert(hits_on(hits.push(h), old, qi) == on.push((h.1, h.2)));
            assert(on.push((h.1, h.2)).map_values(f) =~= on.map_values(f).push(f((h.1, h.2))));
            assert(ids2.drop_last() =~= ids);
            assert(on.push((h.1, h.2)).map_values(f).drop_last() =~= on.map_values(f));
            assert forall|k: int| 0 <= k < ids2.len() implies hit_id(on.push((h.1, h.2))[k].0, #[trigger] ids2[k]) by {
                if k < ids.len() {
                    assert(ids2[k] == ids[k]);
                    assert(on.push((h.1, h.2))[k] == on[k]);
                }
            }
            assert(hits_recorded_with(old, new, hits.push(h), qi, ids2));
        } else {
            if first_named(old, h.0, qi) {
                lemma_first_named_unique(old, h.0, pi, qi);
            }
            assert(hits_on(hits.push(h), old, qi) == on);
            assert(new[qi] == cur[qi]);
            assert(hits_recorded_with(old, new, hits.push(h), qi, ids));
        }
    }
}

pub proof fn lemma_prefix_step<T>(s: Seq<T>, j: int)
    requires
        0 <= j < s.len(),
    ensures
        s.subrange(0, j + 1).drop_last() == s.subrange(0, j),
        s.subrange(0, j + 1).last() == s[j],
{
    assert(s.subrange(0, j + 1).drop_last() =~= s.subrange(0, j));
}

pub proof fn lemma_blocks_keep_hits(blocks: Seq<(String, String)>, players: Seq<Player>)
    ensures
        blocks_fold(blocks, players).3 == combat_start().3,
    decreases blocks.len(),
{
    if blocks.len() > 0 {
        lemma_blocks_keep_hits(blocks.drop_last(), players);
    }
}

pub proof fn lemma_attacks_keep_destroyed(attacks: Seq<(String, EffectTarget)>, blocks: Seq<(String, String)>, players: Seq<Player>)
    ensures
        attacks_fold(attacks, blocks, players).2 == blocks_fold(blocks, players).2,
    decreases attacks.len(),
{
    if attacks.len() > 0 {
        lemma_attacks_keep_destroyed(attacks.drop_last(), blocks, players);
    }
}

/// `x - y`, held within the bounds of an `i16`.
fn saturating_sub_i16(x: i16, y: i16) -> (r: i16)
    ensures
        r == saturating_sub(x as int, y as int),
{
    let d = x as i32 - y as i32;
    if d < -32768 {
        -32768
    } else if d > 32767 {
        32767
    } else {
        d as i16
    }
}

impl Combat {
    /// No attacks and no blocks.
    pub fn new() -> (c: Self)
        ensures
            c.attackers@.len() == 0,
            c.blockers@.len() == 0,
    {
        Combat { attackers: Vec::new(), blockers: Vec::new() }
    }

    /// Declares an attacker and what it attacks.
    pub fn declare_attacker(&mut self, card: String, target: EffectTarget)
        ensures
            final(self).attackers@ == old(self).attackers@.push((card, target)),
            final(self).blockers == old(self).blockers,
    {
        self.attackers.push((card, target));
    }

    /// Declares a blocker and the attacker it blocks.
    pub fn declare_blocker(&mut self, blocker_card: String, attacker_card: String)
        ensures
            final(self).blockers@ == old(self).blockers@.push((blocker_card, attacker_card)),
            final(self).attackers == old(self).attackers,
    {
        self.blockers.push((blocker_card, attacker_card));
    }
    /// Resolves the blocks in order: each blocker takes its attacker's power
    /// in damage and the attacker the blocker's, and each card whose damage
    /// reaches its toughness is noted as destroyed.
    fn resolve_blocks(&self, players: &mut Vec<Player>) -> (destroyed: Vec<String>)
        requires
            combat_ready(*self, old(players)@),
            blocks_fold(self.blockers@, old(players)@).4,
            combat_frame(old(players)@, old(players)@, combat_start()),
        ensures
            combat_frame(old(players)@, final(players)@, blocks_fold(self.blockers@, old(players)@)),
            state_fits(blocks_fold(self.blockers@, old(players)@)),
            forall|pi: int| 0 <= pi < old(players)@.len() ==> (#[trigger] final(players)@[pi]).stat_manager == old(players)@[pi].stat_manager,
            destroyed@.len() == blocks_fold(self.blockers@, old(players)@).2.len(),
            forall|k: int| 0 <= k < destroyed@.len() ==> (#[trigger] destroyed@[k])@ == blocks_fold(self.blockers@, old(players)@).2[k],
    {
        let ghost p0 = players@;
        let mut destroyed: Vec<String> = Vec::new();
        let mut j: usize = 0;
        while j < self.blockers.len()
            invariant
                j <= self.blockers@.len(),
                combat_ready(*self, p0),
                blocks_fold(self.blockers@, p0).4,
                combat_frame(p0, players@, blocks_fold(self.blockers@.subrange(0, j as int), p0)),
                state_fits(blocks_fold(self.blockers@.subrange(0, j as int), p0)),
                forall|pi: int| 0 <= pi < p0.len() ==> (#[trigger] players@[pi]).stat_manager == p0[pi].stat_manager,
                destroyed@.len() == blocks_fold(self.blockers@.subrange(0, j as int), p0).2.len(),
                forall|k: int| 0 <= k < destroyed@.len() ==> (#[trigger] destroyed@[k])@ == blocks_fold(self.blockers@.subrange(0, j as int), p0).2[k],
            decreases self.blockers@.len() - j,
        {
            let ghost st = blocks_fold(self.blockers@.subrange(0, j as int), p0);
            let b = &self.blockers[j].0;
            let a = &self.blockers[j].1;
            proof {
                assert(self.blockers@.subrange(0, j as int + 1).drop_last() =~= self.blockers@.subrange(0, j as int));
                assert(self.blockers@.subrange(0, j as int + 1).last() == self.blockers@[j as int]);
                lemma_blocks_ok_prefix(self.blockers@, p0, j as int + 1);
                assert(fighting(p0, b@) && fighting(p0, a@));
                lemma_frame_layout(p0, players@, st);
                let (x, y) = choose|x: int, y: int| first_in_play(p0, b@, x, y);
                lemma_layout_first(p0, players@, b@, x, y);
                let (x2, y2) = choose|x: int, y: int| first_in_play(p0, a@, x, y);
                lemma_layout_first(p0, players@, a@, x2, y2);
            }
            let (bp, bc) = position_of(players, b);
            let (ap, ac) = position_of(players, a);
            proof {
                lemma_layout_first(p0, players@, b@, bp as int, bc as int);
                lemma_layout_first(p0, players@, a@, ap as int, ac as int);
                lemma_frame_read(p0, players@, st, b@, bp as int, bc as int);
                lemma_frame_read(p0, players@, st, a@, ap as int, ac as int);
            }
            let attacker_damage = players[ap].cards_in_play[ac].stats.get_stat_value(StatType::Power);
            let blocker_toughness = players[bp].cards_in_play[bc].stats.get_stat_value(StatType::Toughness);
            let ghost s1 = take_damage(st, p0, b@, power_of(p0, a@), true);
            let ghost pre1 = players@;
            add_damage(players, bp, bc, attacker_damage);
            proof {
                lemma_frame_damage(p0, pre1, players@, st, s1, b@, bp as int, bc as int, damage_so_far(st, p0, b@) + power_of(p0, a@));
            }
            if players[bp].cards_in_play[bc].damage_taken >= blocker_toughness {
                destroyed.push(b.clone());
            }
            proof {
                assert(state_fits(s1));
                lemma_frame_layout(p0, players@, s1);
                lemma_layout_first(p0, players@, a@, ap as int, ac as int);
                lemma_frame_read(p0, players@, s1, a@, ap as int, ac as int);
                lemma_frame_read(p0, players@, s1, b@, bp as int, bc as int);
            }
            let blocker_damage = players[bp].cards_in_play[bc].stats.get_stat_value(StatType::Power);
            let attacker_toughness = players[ap].cards_in_play[ac].stats.get_stat_value(StatType::Toughness);
            let ghost s2 = take_damage(s1, p0, a@, power_of(p0, b@), true);
            let ghost pre2 = players@;
            add_damage(players, ap, ac, blocker_damage);
            proof {
                lemma_frame_damage(p0, pre2, players@, s1, s2, a@, ap as int, ac as int, damage_so_far(s1, p0, a@) + power_of(p0, b@));
            }
            if players[ap].cards_in_play[ac].damage_taken >= attacker_toughness {
                destroyed.push(a.clone());
            }
            proof {
                assert(s2 == blocks_fold(self.blockers@.subrange(0, j as int + 1), p0));
                assert(state_fits(s2));
                assert forall|pi: int| 0 <= pi < p0.len() implies (#[trigger] players@[pi]).stat_manager == p0[pi].stat_manager by {
                    assert(players@[pi].stat_manager == pre2[pi].stat_manager);
                    assert(pre2[pi].stat_manager == pre1[pi].stat_manager);
                }
            }
            j = j + 1;
        }
        proof {
            assert(self.blockers@.subrange(0, self.blockers@.len() as int) =~= self.blockers@);
        }
        destroyed
    }

    /// Deals `damage` from the attacker to what it attacks: a player loses
    /// that much health, recorded under a fresh id, and the attacker notes
    /// it dealt it; or a card takes that much damage, and is given back when
    /// its damage reaches its toughness.
    fn apply_damage_to_target(
        &self,
        damage: i16,
        target: &EffectTarget,
        attacker_card: &String,
        players: &mut Vec<Player>,
        Ghost(p0): Ghost<Seq<Player>>,
        Ghost(st): Ghost<CombatState>,
    ) -> (r: Option<String>)
        requires
            fighting(p0, attacker_card@),
            match *target {
                EffectTarget::Player(name) => exists|pi: int| first_named(p0, name@, pi),
                EffectTarget::Card(id) => fighting(p0, id@),
            },
            combat_frame(p0, old(players)@, st),
            state_fits(st),
            hits_recorded(p0, old(players)@, st.3),
            hit_state(st, p0, attacker_card@, *target, damage as int).4,
        ensures
            combat_frame(p0, final(players)@, hit_state(st, p0, attacker_card@, *target, damage as int)),
            state_fits(hit_state(st, p0, attacker_card@, *target, damage as int)),
            hits_recorded(p0, final(players)@, hit_state(st, p0, attacker_card@, *target, damage as int).3),
            match *target {
                EffectTarget::Player(_) => r.is_none(),
                EffectTarget::Card(id) => match r {
                    Some(x) => x@ == id@ && damage_so_far(st, p0, id@) + damage >= toughness_of(p0, id@),
                    None => damage_so_far(st, p0, id@) + damage < toughness_of(p0, id@),
                },
            },
    {
        proof {
            lemma_frame_layout(p0, players@, st);
            let (x, y) = choose|x: int, y: int| first_in_play(p0, attacker_card@, x, y);
            lemma_layout_first(p0, players@, attacker_card@, x, y);
        }
        match target {
            EffectTarget::Player(name) => {
                proof {
                    let q = choose|q: int| first_named(p0, name@, q);
                    lemma_layout_named(p0, players@, name@, q);
                }
                let pi = match find_player(players, name) {
                    Some(pi) => pi,
                    None => 0,
                };
                proof {
                    lemma_layout_named(p0, players@, name@, pi as int);
                }
                let (ap, ac) = position_of(players, attacker_card);
                proof {
                    lemma_layout_first(p0, players@, attacker_card@, ap as int, ac as int);
                    lemma_frame_read(p0, players@, st, attacker_card@, ap as int, ac as int);
                    reveal_strlit("damage-");
                    reveal_strlit("-");
                }
                let mut id = "damage-".to_string();
                id.append(&players[ap].cards_in_play[ac].name);
                id.append("-");
                let fresh = crate::rng::new_ulid();
                id.append(&fresh);
                let ghost aname = card_of(p0, attacker_card@).name@;
                proof {
                    assert(id@.subrange(0, 7) =~= "damage-"@);
                    assert(id@.subrange(7, 7 + aname.len() as int) =~= aname);
                    assert(hit_id(aname, id@));
                }
                let ghost cur = players@;
                let ghost idv = id@;
                add_player_stat(players, pi, id, Stat::new(StatType::Health, -damage));
                let ghost mid = players@;
                proof {
                    lemma_frame_stats(p0, cur, mid, st, pi as int);
                    lemma_hit_recorded(p0, cur, mid, st.3, (name@, aname, damage as int), pi as int, idv);
                    lemma_frame_layout(p0, mid, st);
                    lemma_layout_first(p0, mid, attacker_card@, ap as int, ac as int);
                    lemma_frame_read(p0, mid, st, attacker_card@, ap as int, ac as int);
                }
                set_dealt(players, ap, ac, damage);
                proof {
                    let h = hit_state(st, p0, attacker_card@, *target, damage as int);
                    lemma_frame_dealt(p0, mid, players@, st, h, attacker_card@, ap as int, ac as int, damage as int);
                    lemma_hits_kept(p0, mid, players@, h.3);
                }
                None
            },
            EffectTarget::Card(id) => {
                proof {
                    let (x, y) = choose|x: int, y: int| first_in_play(p0, id@, x, y);
                    lemma_layout_first(p0, players@, id@, x, y);
                }
                let (cp, cc) = position_of(players, id);
                proof {
                    lemma_layout_first(p0, players@, id@, cp as int, cc as int);
                    lemma_frame_read(p0, players@, st, id@, cp as int, cc as int);
                }
                let toughness = players[cp].cards_in_play[cc].stats.get_stat_value(StatType::Toughness);
                let ghost cur = players@;
                add_damage(players, cp, cc, damage);
                proof {
                    let h = hit_state(st, p0, attacker_card@, *target, damage as int);
                    lemma_frame_damage(p0, cur, players@, st, h, id@, cp as int, cc as int, damage_so_far(st, p0, id@) + damage);
                    lemma_hits_kept(p0, cur, players@, h.3);
                }
                if players[cp].cards_in_play[cc].damage_taken >= toughness {
                    Some(id.clone())
                } else {
                    None
                }
            },
        }
    }

    /// Whether the attacker is blocked and the sum of its blockers' toughness.
    fn blockers_toughness(&self, attacker: &String, players: &Vec<Player>, Ghost(p0): Ghost<Seq<Player>>, Ghost(st): Ghost<CombatState>) -> (r: (bool, i16))
        requires
            combat_ready(*self, p0),
            combat_frame(p0, players@, st),
            state_fits(st),
            blockers_of(self.blockers@, p0, attacker@).2,
        ensures
            r.0 == blockers_of(self.blockers@, p0, attacker@).0,
            r.1 == blockers_of(self.blockers@, p0, attacker@).1,
    {
        let mut is_blocked = false;
        let mut total: i16 = 0;
        let mut m: usize = 0;
        proof {
            lemma_frame_layout(p0, players@, st);
        }
        while m < self.blockers.len()
            invariant
                m <= self.blockers@.len(),
                combat_ready(*self, p0),
                combat_frame(p0, players@, st),
                state_fits(st),
                same_layout(p0, players@),
                blockers_of(self.blockers@, p0, attacker@).2,
                is_blocked == blockers_of(self.blockers@.subrange(0, m as int), p0, attacker@).0,
                total == blockers_of(self.blockers@.subrange(0, m as int), p0, attacker@).1,
            decreases self.blockers@.len() - m,
        {
            proof {
                lemma_prefix_step(self.blockers@, m as int);
                lemma_blockers_ok_prefix(self.blockers@, p0, attacker@, m as int + 1);
            }
            if self.blockers[m].1 == *attacker {
                is_blocked = true;
                let b = &self.blockers[m].0;
                proof {
                    assert(fighting(p0, self.blockers@[m as int].0@));
                    let (x, y) = choose|x: int, y: int| first_in_play(p0, b@, x, y);
                    lemma_layout_first(p0, players@, b@, x, y);
                }
                let (bp, bc) = position_of(players, b);
                proof {
                    lemma_layout_first(p0, players@, b@, bp as int, bc as int);
                    lemma_frame_read(p0, players@, st, b@, bp as int, bc as int);
                }
                total = total + players[bp].cards_in_play[bc].stats.get_stat_value(StatType::Toughness);
            }
            m = m + 1;
        }
        proof {
            assert(self.blockers@.subrange(0, self.blockers@.len() as int) =~= self.blockers@);
        }
        (is_blocked, total)
    }

    /// Resolves the attacks in order, after the blocks: each attacker deals
    /// its damage past its blockers to what it attacks.
    fn resolve_attacks(&self, players: &mut Vec<Player>, Ghost(p0): Ghost<Seq<Player>>)
        requires
            combat_ready(*self, p0),
            combat_outcome(*self, p0).4,
            combat_frame(p0, old(players)@, blocks_fold(self.blockers@, p0)),
            state_fits(blocks_fold(self.blockers@, p0)),
            hits_recorded(p0, old(players)@, blocks_fold(self.blockers@, p0).3),
        ensures
            combat_frame(p0, final(players)@, combat_outcome(*self, p0)),
            hits_recorded(p0, final(players)@, combat_outcome(*self, p0).3),
    {
        let mut j: usize = 0;
        while j < self.attackers.len()
            invariant
                j <= self.attackers@.len(),
                combat_ready(*self, p0),
                combat_outcome(*self, p0).4,
                combat_frame(p0, players@, attacks_fold(self.attackers@.subrange(0, j as int), self.blockers@, p0)),
                state_fits(attacks_fold(self.attackers@.subrange(0, j as int), self.blockers@, p0)),
                hits_recorded(p0, players@, attacks_fold(self.attackers@.subrange(0, j as int), self.blockers@, p0).3),
            decreases self.attackers@.len() - j,
        {
            let ghost st = attacks_fold(self.attackers@.subrange(0, j as int), self.blockers@, p0);
            let attacker = &self.attackers[j].0;
            let target = &self.attackers[j].1;
            proof {
                lemma_prefix_step(self.attackers@, j as int);
                lemma_attacks_ok_prefix(self.attackers@, self.blockers@, p0, j as int + 1);
                assert(fighting(p0, attacker@));
                lemma_frame_layout(p0, players@, st);
                let (x, y) = choose|x: int, y: int| first_in_play(p0, attacker@, x, y);
                lemma_layout_first(p0, players@, attacker@, x, y);
            }
            let (is_blocked, total) = self.blockers_toughness(attacker, players, Ghost(p0), Ghost(st));
            let (ap, ac) = position_of(players, attacker);
            proof {
                lemma_layout_first(p0, players@, attacker@, ap as int, ac as int);
                lemma_frame_read(p0, players@, st, attacker@, ap as int, ac as int);
            }
            let attacker_damage = players[ap].cards_in_play[ac].stats.get_stat_value(StatType::Power);
            if !is_blocked {
                self.apply_damage_to_target(attacker_damage, target, attacker, players, Ghost(p0), Ghost(st));
            } else {
                let has_trample = players[ap].cards_in_play[ac].stats.get_stat_value(StatType::Trample) > 0;
                if has_trample {
                    let excess_damage = saturating_sub_i16(attacker_damage, total);
                    if excess_damage > 0 {
                        self.apply_damage_to_target(excess_damage, target, attacker, players, Ghost(p0), Ghost(st));
                    }
                }
            }
            proof {
                assert(attacks_fold(self.attackers@.subrange(0, j as int + 1), self.blockers@, p0)
                    == attack_step(st, self.blockers@, p0, attacker@, *target));
            }
            j = j + 1;
        }
        proof {
            assert(self.attackers@.subrange(0, self.attackers@.len() as int) =~= self.attackers@);
        }
    }

    /// Resolves the combat on the table: the blocks first, then the attacks,
    /// and forgets them. Gives back, in order, the ids of the cards the blocks
    /// destroyed.
    pub fn resolve_combat(&mut self, players: &mut Vec<Player>) -> (destroyed: Vec<String>)
        requires
            combat_ready(*old(self), old(players)@),
            combat_outcome(*old(self), old(players)@).4,
        ensures
            combat_frame(old(players)@, final(players)@, combat_outcome(*old(self), old(players)@)),
            hits_recorded(old(players)@, final(players)@, combat_outcome(*old(self), old(players)@).3),
            destroyed@.len() == combat_outcome(*old(self), old(players)@).2.len(),
            forall|k: int| 0 <= k < destroyed@.len() ==> (#[trigger] destroyed@[k])@ == combat_outcome(*old(self), old(players)@).2[k],
            final(self).attackers@.len() == 0,
            final(self).blockers@.len() == 0,
    {
        let ghost p0 = players@;
        proof {
            lemma_frame_start(p0);
            lemma_attacks_ok_prefix(self.attackers@, self.blockers@, p0, 0);
        }
        let destroyed = self.resolve_blocks(players);
        proof {
            let b = blocks_fold(self.blockers@, p0);
            lemma_hits_kept(p0, p0, players@, combat_start().3);
            assert(b.3 == combat_start().3) by {
                lemma_blocks_keep_hits(self.blockers@, p0);
            }
            assert(b.2 == combat_outcome(*self, p0).2) by {
                lemma_attacks_keep_destroyed(self.attackers@, self.blockers@, p0);
            }
        }
        self.resolve_attacks(players, Ghost(p0));
        self.attackers = Vec::new();
        self.blockers = Vec::new();
        destroyed
    }
}

/// The blocks noted so far hold no damage for a card that fights in none of
/// them.
proof fn lemma_unmentioned_undamaged(blocks: Seq<(String, String)>, players: Seq<Player>, id: Seq<char>)
    requires
        forall|i: int| 0 <= i < blocks.len() ==> (#[trigger] blocks[i]).0@ != id && blocks[i].1@ != id,
    ensures
        !blocks_fold(blocks, players).0.contains_key(id),
    decreases blocks.len(),
{
    if blocks.len() > 0 {
        assert forall|i: int| 0 <= i < blocks.drop_last().len() implies (#[trigger] blocks.drop_last()[i]).0@ != id && blocks.drop_last()[i].1@ != id by {
            assert(blocks.drop_last()[i] == blocks[i]);
        }
        lemma_unmentioned_undamaged(blocks.drop_last(), players, id);
        assert(blocks.last() == blocks[blocks.len() - 1]);
    }
}

/// A card noted as destroyed by the first `k` blocks stays noted after all
/// of them.
proof fn lemma_blocks_keep_destroyed(blocks: Seq<(String, String)>, players: Seq<Player>, k: int, id: Seq<char>)
    requires
        0 <= k <= blocks.len(),
        blocks_fold(blocks.subrange(0, k), players).2.contains(id),
    ensures
        blocks_fold(blocks, players).2.contains(id),
    decreases blocks.len(),
{
    if k == blocks.len() {
        assert(blocks.subrange(0, k) =~= blocks);
    } else {
        assert(blocks.drop_last().subrange(0, k) =~= blocks.subrange(0, k));
        lemma_blocks_keep_destroyed(blocks.drop_last(), players, k, id);
        let s = blocks_fold(blocks.drop_last(), players);
        let s1 = take_damage(s, players, blocks.last().0@, power_of(players, blocks.last().1@), true);
        let j = choose|j: int| 0 <= j < s.2.len() && s.2[j] == id;
        assert(s1.2[j] == id);
        let s2 = take_damage(s1, players, blocks.last().1@, power_of(players, blocks.last().0@), true);
        assert(s2.2[j] == id);
    }
}

/// The attacks keep every card the blocks noted as destroyed.
proof fn lemma_attacks_keep_destroyed_id(attacks: Seq<(String, EffectTarget)>, blocks: Seq<(String, String)>, players: Seq<Player>, id: Seq<char>)
    requires
        blocks_fold(blocks, players).2.contains(id),
    ensures
        attacks_fold(attacks, blocks, players).2.contains(id),
    decreases attacks.len(),
{
    if attacks.len() > 0 {
        lemma_attacks_keep_destroyed_id(attacks.drop_last(), blocks, players, id);
        let s = attacks_fold(attacks.drop_last(), blocks, players);
        let j = choose|j: int| 0 <= j < s.2.len() && s.2[j] == id;
        let a = attacks.last();
        let s2 = attack_step(s, blocks, players, a.0@, a.1);
        match attack_damage(blocks, players, a.0@) {
            None => {},
            Some(x) => {
                let h = hit_state(s, players, a.0@, a.1, x);
                assert(h.2[j] == id);
            },
        }
        assert(s2.2[j] == id);
    }
}

/// A card fighting in a block is destroyed when the damage it has taken,
/// with the power of the card it fights added, reaches its toughness: damage
/// equal to the toughness is enough. This holds of each of the two distinct
/// cards of any block in which neither fought in an earlier block, whatever
/// the rest of the combat.
pub proof fn law_block_destroys_at_toughness(c: Combat, players: Seq<Player>, j: int)
    requires
        0 <= j < c.blockers@.len(),
        c.blockers@[j].0@ != c.blockers@[j].1@,
        forall|i: int| 0 <= i < j ==> {
            &&& (#[trigger] c.blockers@[i]).0@ != c.blockers@[j].0@
            &&& c.blockers@[i].1@ != c.blockers@[j].0@
            &&& c.blockers@[i].0@ != c.blockers@[j].1@
            &&& c.blockers@[i].1@ != c.blockers@[j].1@
        },
    ensures
        card_of(players, c.blockers@[j].0@).damage_taken + card_of(players, c.blockers@[j].1@).stats.total(StatType::Power)
            >= card_of(players, c.blockers@[j].0@).stats.total(StatType::Toughness)
            ==> combat_outcome(c, players).2.contains(c.blockers@[j].0@),
        card_of(players, c.blockers@[j].1@).damage_taken + card_of(players, c.blockers@[j].0@).stats.total(StatType::Power)
            >= card_of(players, c.blockers@[j].1@).stats.total(StatType::Toughness)
            ==> combat_outcome(c, players).2.contains(c.blockers@[j].1@),
{
    let blocks = c.blockers@;
    let b = blocks[j].0@;
    let a = blocks[j].1@;
    let pre = blocks.subrange(0, j);
    assert forall|i: int| 0 <= i < pre.len() implies (#[trigger] pre[i]).0@ != b && pre[i].1@ != b by {
        assert(pre[i] == blocks[i]);
    }
    lemma_unmentioned_undamaged(pre, players, b);
    assert forall|i: int| 0 <= i < pre.len() implies (#[trigger] pre[i]).0@ != a && pre[i].1@ != a by {
        assert(pre[i] == blocks[i]);
    }
    lemma_unmentioned_undamaged(pre, players, a);
    let s = blocks_fold(pre, players);
    assert(blocks.subrange(0, j + 1).drop_last() =~= pre);
    assert(blocks.subrange(0, j + 1).last() == blocks[j]);
    let s1 = take_damage(s, players, b, power_of(players, a), true);
    let s2 = take_damage(s1, players, a, power_of(players, b), true);
    assert(blocks_fold(blocks.subrange(0, j + 1), players) == s2);
    assert(damage_so_far(s, players, b) == card_of(players, b).damage_taken);
    assert(!s1.0.contains_key(a));
    assert(damage_so_far(s1, players, a) == card_of(players, a).damage_taken);
    if card_of(players, b).damage_taken + card_of(players, a).stats.total(StatType::Power) >= card_of(players, b).stats.total(StatType::Toughness) {
        assert(s1.2.last() == b);
        assert(s2.2[s1.2.len() - 1] == b);
        lemma_blocks_keep_destroyed(blocks, players, j + 1, b);
        lemma_attacks_keep_destroyed_id(c.attackers@, blocks, players, b);
    }
    if card_of(players, a).damage_taken + card_of(players, b).stats.total(StatType::Power) >= card_of(players, a).stats.total(StatType::Toughness) {
        assert(s2.2.last() == a);
        lemma_blocks_keep_destroyed(blocks, players, j + 1, a);
        lemma_attacks_keep_destroyed_id(c.attackers@, blocks, players, a);
    }
}

/// A combat of one block and no attack destroys exactly the cards whose
/// damage taken, with the other card's power added, reaches their
/// toughness: the blocker first, then the attacker.
pub proof fn law_single_block_destroyed(c: Combat, players: Seq<Player>)
    requires
        c.blockers@.len() == 1,
        c.attackers@.len() == 0,
        c.blockers@[0].0@ != c.blockers@[0].1@,
    ensures
        combat_outcome(c, players).2 == ({
            let b = c.blockers@[0].0@;
            let a = c.blockers@[0].1@;
            let kb = card_of(players, b).damage_taken + card_of(players, a).stats.total(StatType::Power) >= card_of(players, b).stats.total(StatType::Toughness);
            let ka = card_of(players, a).damage_taken + card_of(players, b).stats.total(StatType::Power) >= card_of(players, a).stats.total(StatType::Toughness);
            (if kb { seq![b] } else { Seq::empty() }) + (if ka { seq![a] } else { Seq::empty() })
        }),
{
    let blocks = c.blockers@;
    let b = blocks[0].0@;
    let a = blocks[0].1@;
    assert(blocks.drop_last() =~= Seq::<(String, String)>::empty());
    assert(blocks.last() == blocks[0]);
    let s = combat_start();
    assert(blocks_fold(blocks.drop_last(), players) == s);
    let s1 = take_damage(s, players, b, power_of(players, a), true);
    let s2 = take_damage(s1, players, a, power_of(players, b), true);
    assert(blocks_fold(blocks, players) == s2);
    assert(combat_outcome(c, players) == s2);
    assert(damage_so_far(s, players, b) == card_of(players, b).damage_taken);
    assert(!s1.0.contains_key(a));
    assert(damage_so_far(s1, players, a) == card_of(players, a).damage_taken);
    assert(s2.2 =~= ({
        let kb = card_of(players, b).damage_taken + card_of(players, a).stats.total(StatType::Power) >= card_of(players, b).stats.total(StatType::Toughness);
        let ka = card_of(players, a).damage_taken + card_of(players, b).stats.total(StatType::Power) >= card_of(players, a).stats.total(StatType::Toughness);
        (if kb { seq![b] } else { Seq::empty() }) + (if ka { seq![a] } else { Seq::empty() })
    }));
}

} // verus!

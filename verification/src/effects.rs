//! Lasting effects: stat modifiers put on a card or a player, counted down
//! turn by turn, and the manager that keeps them by id.
use vstd::prelude::*;
use crate::card::Card;
use crate::player::Player;
use crate::stat::{Stat, StatManager, StatType, Stats};
use crate::table::{card_replaced, find_card_in_play, find_player, first_in_play, first_named, nowhere_in_play, update_card_in_play, update_player};
use crate::turn::Turn;

verus! {

/// Whose stat a stat-modifying action changes.
#[derive(Debug, Clone, Copy, PartialEq, Eq, Structural)]
pub enum ModifyStatTarget {
    Card,
    Owner,
    Target,
}

/// What an effect works on: a player by name, or a card by id.
#[derive(Debug, Clone, PartialEq)]
pub enum EffectTarget {
    Player(String),
    Card(String),
}

/// The unique id of an effect.
#[derive(Debug, Clone, PartialEq)]
pub struct EffectID(pub String);

impl EffectID {
    /// A fresh random id.
    pub fn new() -> (e: Self)
        ensures
            e.0@.len() == 36,
    {
        EffectID(crate::rng::new_uuid())
    }

    /// The id as text.
    pub fn to_string(&self) -> (s: String)
        ensures
            s@ == self.0@,
    {
        self.0.clone()
    }
}

/// How long an effect lasts.
#[derive(Debug, Clone, Copy, PartialEq, Eq, Structural)]
pub enum ExpireContract {
    Turns(i8),
    Never,
}

/// Every player's stats and every card in play's stats keep their ids apart.
pub open spec fn stats_wf(players: Seq<Player>) -> bool {
    forall|pi: int| 0 <= pi < players.len() ==> {
        &&& (#[trigger] players[pi]).stat_manager.wf()
        &&& forall|ci: int| 0 <= ci < players[pi].cards_in_play@.len() ==> (#[trigger] players[pi].cards_in_play@[ci]).stats.wf()
    }
}

/// `new` is `old` with the stats of the target changed by `f`: the stats of
/// the first card in play with the target id, or of the first player with the
/// target name, and nothing else; nothing changes when no such card or
/// player is at the table.
pub open spec fn target_stats_changed(
    old: Seq<Player>,
    new: Seq<Player>,
    target: EffectTarget,
    f: spec_fn(Map<Seq<char>, Stat>) -> Map<Seq<char>, Stat>,
) -> bool {
    match target {
        EffectTarget::Card(id) => if nowhere_in_play(old, id@) {
            new == old
        } else {
            let (pi, ci) = choose|pi: int, ci: int| first_in_play(old, id@, pi, ci);
            let c0 = old[pi].cards_in_play@[ci];
            exists|c: Card| #![trigger card_replaced(old, new, pi, ci, c)] {
                &&& card_replaced(old, new, pi, ci, c)
                &&& c == (Card { stats: c.stats, ..c0 })
                &&& c.stats.as_map() == f(c0.stats.as_map())
                &&& c.stats.listeners == c0.stats.listeners
            }
        },
        EffectTarget::Player(name) => if forall|j: int| 0 <= j < old.len() ==> (#[trigger] old[j]).name@ != name@ {
            new == old
        } else {
            let pi = choose|pi: int| first_named(old, name@, pi);
            let p0 = old[pi];
            exists|p: Player| #![trigger old.update(pi, p)] {
                &&& new == old.update(pi, p)
                &&& p == (Player { stat_manager: p.stat_manager, ..p0 })
                &&& p.stat_manager.as_map() == f(p0.stat_manager.as_map())
                &&& p.stat_manager.listeners == p0.stat_manager.listeners
            }
        },
    }
}

pub proof fn lemma_first_in_play_unique(players: Seq<Player>, id: Seq<char>, pi: int, ci: int, pj: int, cj: int)
    requires
        first_in_play(players, id, pi, ci),
        first_in_play(players, id, pj, cj),
    ensures
        pi == pj && ci == cj,
{
    if crate::table::before(pi, ci, pj, cj) {
        assert(!crate::table::in_play_at(players, id, pi, ci));
    } else if crate::table::before(pj, cj, pi, ci) {
        assert(!crate::table::in_play_at(players, id, pj, cj));
    }
}

pub proof fn lemma_first_named_unique(players: Seq<Player>, name: Seq<char>, pi: int, pj: int)
    requires
        first_named(players, name, pi),
        first_named(players, name, pj),
    ensures
        pi == pj,
{
    if pi < pj {
        assert(players[pi].name@ != name);
    } else if pj < pi {
        assert(players[pj].name@ != name);
    }
}

/// Stores `stat` under `id` among the target's stats, or removes what is
/// stored there when `stat` is `None`.
pub fn set_target_stat(players: &mut Vec<Player>, target: &EffectTarget, id: String, stat: Option<Stat>)
    requires
        stats_wf(old(players)@),
    ensures
        stats_wf(final(players)@),
        target_stats_changed(old(players)@, final(players)@, *target,
            (|m: Map<Seq<char>, Stat>| match stat { Some(s) => m.insert(id@, s), None => m.remove(id@) })),
{
    let ghost f = |m: Map<Seq<char>, Stat>| match stat { Some(s) => m.insert(id@, s), None => m.remove(id@) };
    let ghost old_players = players@;
    match target {
        EffectTarget::Card(card_id) => {
            match find_card_in_play(players, card_id) {
                Some((pi, ci)) => {
                    let ghost c0 = players@[pi as int].cards_in_play@[ci as int];
                    assert(c0.stats.wf());
                    let ghost idv = id@;
                    update_card_in_play(players, pi, ci, move |c: Card| -> (r: Card)
                        requires
                            c.stats.wf(),
                        ensures
                            r == (Card { stats: r.stats, ..c }),
                            r.stats.wf(),
                            r.stats.listeners == c.stats.listeners,
                            r.stats.as_map() == (match stat { Some(s) => c.stats.as_map().insert(idv, s), None => c.stats.as_map().remove(idv) }),
                        {
                            let mut c = c;
                            match stat {
                                Some(s) => c.stats.add_stat(id, s),
                                None => c.stats.remove_stat(id),
                            }
                            c
                        });
                    proof {
                        let (qi, qj) = choose|qi: int, qj: int| first_in_play(old_players, card_id@, qi, qj);
                        lemma_first_in_play_unique(old_players, card_id@, pi as int, ci as int, qi, qj);
                        assert forall|p: int| 0 <= p < players@.len() implies {
                            &&& (#[trigger] players@[p]).stat_manager.wf()
                            &&& forall|q: int| 0 <= q < players@[p].cards_in_play@.len() ==> (#[trigger] players@[p].cards_in_play@[q]).stats.wf()
                        } by {
                            if p != pi {
                                assert(players@[p] == old_players[p]);
                            } else {
                                assert forall|q: int| 0 <= q < players@[p].cards_in_play@.len() implies (#[trigger] players@[p].cards_in_play@[q]).stats.wf() by {
                                    if q != ci {
                                        assert(players@[p].cards_in_play@[q] == old_players[p].cards_in_play@[q]);
                                    }
                                }
                            }
                        }
                    }
                },
                None => {},
            }
        },
        EffectTarget::Player(name) => {
            match find_player(players, name) {
                Some(pi) => {
                    let ghost idv = id@;
                    assert(players@[pi as int].stat_manager.wf());
                    update_player(players, pi, move |p: Player| -> (r: Player)
                        requires
                            p.stat_manager.wf(),
                        ensures
                            r == (Player { stat_manager: r.stat_manager, ..p }),
                            r.stat_manager.wf(),
                            r.stat_manager.listeners == p.stat_manager.listeners,
                            r.stat_manager.as_map() == (match stat { Some(s) => p.stat_manager.as_map().insert(idv, s), None => p.stat_manager.as_map().remove(idv) }),
                        {
                            let mut p = p;
                            match stat {
                                Some(s) => p.stat_manager.add_stat(id, s),
                                None => p.stat_manager.remove_stat(id),
                            }
                            p
                        });
                    proof {
                        let qi = choose|qi: int| first_named(old_players, name@, qi);
                        lemma_first_named_unique(old_players, name@, pi as int, qi);
                    }
                },
                None => {},
            }
        },
    }
}

/// A change to one stat of a card or a player, undone when it expires.
pub struct StatModifierEffect {
    pub target: EffectTarget,
    pub stat_type: StatType,
    pub amount: i8,
    pub expires: ExpireContract,
    pub id: EffectID,
    pub applied: bool,
    pub source_card: Option<String>,
    pub previous_turn: Option<i32>,
}

/// How the duration of an effect moves when it is applied in the given turn:
/// the first application notes the turn, and every later one in another turn
/// takes one turn off what is left.
pub open spec fn countdown(e: ExpireContract, previous: Option<i32>, turn_number: i32) -> (ExpireContract, Option<i32>) {
    match e {
        ExpireContract::Turns(remaining) => match previous {
            Some(p) => (if p != turn_number && remaining > 0 { ExpireContract::Turns((remaining - 1) as i8) } else { e }, previous),
            None => (e, Some(turn_number)),
        },
        ExpireContract::Never => (e, previous),
    }
}

/// An effect has run out.
pub open spec fn expired(e: ExpireContract) -> bool {
    e matches ExpireContract::Turns(r) && r == 0
}

/// The stat an effect puts on its target.
pub open spec fn effect_stat(e: StatModifierEffect) -> Stat {
    Stat { stat_type: e.stat_type, intensity: e.amount as i16 }
}

/// Applying `e0` in the given turn changed the table from `t0` to `t1` and
/// the effect to `e1`: its stat is put on the target the first time, and its
/// duration counts down.
pub open spec fn effect_applied(t0: Seq<Player>, t1: Seq<Player>, e0: StatModifierEffect, e1: StatModifierEffect, turn_number: i32) -> bool {
    &&& if e0.applied {
        t1 == t0
    } else {
        target_stats_changed(t0, t1, e0.target, (|m: Map<Seq<char>, Stat>| m.insert(e0.id.0@, effect_stat(e0))))
    }
    &&& e1.applied
    &&& (e1.expires, e1.previous_turn) == countdown(e0.expires, e0.previous_turn, turn_number)
    &&& e1.target == e0.target
    &&& e1.stat_type == e0.stat_type
    &&& e1.amount == e0.amount
    &&& e1.id == e0.id
    &&& e1.source_card == e0.source_card
}

/// Cleaning up `e` took its stat off its target.
pub open spec fn effect_cleaned(t0: Seq<Player>, t1: Seq<Player>, e: StatModifierEffect) -> bool {
    target_stats_changed(t0, t1, e.target, (|m: Map<Seq<char>, Stat>| m.remove(e.id.0@)))
}

/// Two changes of the same target's stats, one after the other, are one
/// change of that target's stats by the composed function.
pub proof fn lemma_target_stats_compose(
    t0: Seq<Player>,
    t1: Seq<Player>,
    t2: Seq<Player>,
    target: EffectTarget,
    f: spec_fn(Map<Seq<char>, Stat>) -> Map<Seq<char>, Stat>,
    g: spec_fn(Map<Seq<char>, Stat>) -> Map<Seq<char>, Stat>,
    h: spec_fn(Map<Seq<char>, Stat>) -> Map<Seq<char>, Stat>,
)
    requires
        target_stats_changed(t0, t1, target, f),
        target_stats_changed(t1, t2, target, g),
        forall|m: Map<Seq<char>, Stat>| #[trigger] h(m) == g(f(m)),
    ensures
        target_stats_changed(t0, t2, target, h),
{
    match target {
        EffectTarget::Card(id) => {
            if !nowhere_in_play(t0, id@) {
                let (ai, aj) = choose|ai: int, aj: int| crate::table::in_play_at(t0, id@, ai, aj);
                crate::table::lemma_first_in_play_exists(t0, id@, ai, aj);
                let (pi, ci) = choose|pi: int, ci: int| first_in_play(t0, id@, pi, ci);
                let c0 = t0[pi].cards_in_play@[ci];
                let c1 = choose|c: Card| #![trigger card_replaced(t0, t1, pi, ci, c)] {
                    &&& card_replaced(t0, t1, pi, ci, c)
                    &&& c == (Card { stats: c.stats, ..c0 })
                    &&& c.stats.as_map() == f(c0.stats.as_map())
                    &&& c.stats.listeners == c0.stats.listeners
                };
                assert(t1[pi].cards_in_play@[ci] == c1);
                assert(crate::table::in_play_at(t1, id@, pi, ci));
                assert forall|pj: int, cj: int| crate::table::before(pj, cj, pi, ci) implies !#[trigger] crate::table::in_play_at(t1, id@, pj, cj) by {
                    if crate::table::in_play_at(t1, id@, pj, cj) {
                        if pj != pi {
                            assert(t1[pj] == t0[pj]);
                        } else {
                            assert(t1[pi].cards_in_play@[cj] == t0[pi].cards_in_play@[cj]);
                        }
                        assert(crate::table::in_play_at(t0, id@, pj, cj));
                    }
                }
                assert(first_in_play(t1, id@, pi, ci));
                assert(!nowhere_in_play(t1, id@));
                let (qi, qj) = choose|qi: int, qj: int| first_in_play(t1, id@, qi, qj);
                lemma_first_in_play_unique(t1, id@, pi, ci, qi, qj);
                let c2 = choose|c: Card| #![trigger card_replaced(t1, t2, pi, ci, c)] {
                    &&& card_replaced(t1, t2, pi, ci, c)
                    &&& c == (Card { stats: c.stats, ..c1 })
                    &&& c.stats.as_map() == g(c1.stats.as_map())
                    &&& c.stats.listeners == c1.stats.listeners
                };
                assert(t2[pi].cards_in_play@ =~= t0[pi].cards_in_play@.update(ci, c2));
                assert(card_replaced(t0, t2, pi, ci, c2));
                assert(c2.stats.as_map() == h(c0.stats.as_map()));
            } else {
                assert(t1 == t0);
            }
        },
        EffectTarget::Player(name) => {
            if !(forall|j: int| 0 <= j < t0.len() ==> (#[trigger] t0[j]).name@ != name@) {
                let aj = choose|j: int| 0 <= j < t0.len() && (#[trigger] t0[j]).name@ == name@;
                crate::table::lemma_first_named_exists(t0, name@, aj);
                let pi = choose|pi: int| first_named(t0, name@, pi);
                let p0 = t0[pi];
                let p1 = choose|p: Player| #![trigger t0.update(pi, p)] {
                    &&& t1 == t0.update(pi, p)
                    &&& p == (Player { stat_manager: p.stat_manager, ..p0 })
                    &&& p.stat_manager.as_map() == f(p0.stat_manager.as_map())
                    &&& p.stat_manager.listeners == p0.stat_manager.listeners
                };
                assert(first_named(t1, name@, pi));
                assert(!(forall|j: int| 0 <= j < t1.len() ==> (#[trigger] t1[j]).name@ != name@)) by {
                    assert(t1[pi].name@ == name@);
                }
                let qi = choose|qi: int| first_named(t1, name@, qi);
                lemma_first_named_unique(t1, name@, pi, qi);
                let p2 = choose|p: Player| #![trigger t1.update(pi, p)] {
                    &&& t2 == t1.update(pi, p)
                    &&& p == (Player { stat_manager: p.stat_manager, ..p1 })
                    &&& p.stat_manager.as_map() == g(p1.stat_manager.as_map())
                    &&& p.stat_manager.listeners == p1.stat_manager.listeners
                };
                assert(t2 =~= t0.update(pi, p2));
                assert(p2.stat_manager.as_map() == h(p0.stat_manager.as_map()));
            } else {
                assert(t1 == t0);
            }
        },
    }
}

/// Putting an effect on its target for the first time and then cleaning it
/// up leaves the target's stats as they were, but for anything stored before
/// under the effect's id; nobody else's stats change.
pub proof fn law_apply_then_cleanup(t0: Seq<Player>, t1: Seq<Player>, t2: Seq<Player>, e0: StatModifierEffect, e1: StatModifierEffect, turn_number: i32)
    requires
        !e0.applied,
        effect_applied(t0, t1, e0, e1, turn_number),
        effect_cleaned(t1, t2, e1),
    ensures
        target_stats_changed(t0, t2, e0.target, (|m: Map<Seq<char>, Stat>| m.remove(e0.id.0@))),
{
    let f = |m: Map<Seq<char>, Stat>| m.insert(e0.id.0@, effect_stat(e0));
    let g = |m: Map<Seq<char>, Stat>| m.remove(e1.id.0@);
    let h = |m: Map<Seq<char>, Stat>| m.remove(e0.id.0@);
    assert forall|m: Map<Seq<char>, Stat>| #[trigger] h(m) == g(f(m)) by {
        assert(m.insert(e0.id.0@, effect_stat(e0)).remove(e0.id.0@) =~= m.remove(e0.id.0@));
    }
    lemma_target_stats_compose(t0, t1, t2, e0.target, f, g, h);
}

impl StatModifierEffect {
    /// A fresh effect, not yet applied.
    pub fn new(target: EffectTarget, stat_type: StatType, amount: i8, expires: ExpireContract, source_card: Option<String>) -> (e: StatModifierEffect)
        ensures
            e.target == target,
            e.stat_type == stat_type,
            e.amount == amount,
            e.expires == expires,
            e.source_card == source_card,
            e.id.0@.len() == 36,
            !e.applied,
            e.previous_turn.is_none(),
    {
        StatModifierEffect {
            target,
            stat_type,
            source_card,
            amount,
            expires,
            id: EffectID::new(),
            applied: false,
            previous_turn: None,
        }
    }

    /// The id of the effect.
    pub fn get_id(&self) -> (r: &EffectID)
        ensures
            *r == self.id,
    {
        &self.id
    }

    /// The id the effect's stat is stored under.
    pub fn get_final_id(&self) -> (r: EffectID)
        ensures
            r.0@ == self.id.0@,
    {
        EffectID(self.id.0.clone())
    }

    /// The card the effect comes from.
    pub fn get_source_card(&self) -> (r: Option<&String>)
        ensures
            match (r, self.source_card) {
                (Some(a), Some(b)) => a@ == b@,
                (None, None) => true,
                _ => false,
            },
    {
        match &self.source_card {
            Some(c) => Some(c),
            None => None,
        }
    }

    /// Whether the effect has run out.
    pub fn is_expired(&self) -> (b: bool)
        ensures
            b == expired(self.expires),
    {
        match self.expires {
            ExpireContract::Turns(remaining) => remaining == 0,
            ExpireContract::Never => false,
        }
    }

    /// Applies the effect in the given turn.
    pub fn apply(&mut self, turn: &Turn, players: &mut Vec<Player>)
        requires
            stats_wf(old(players)@),
        ensures
            stats_wf(final(players)@),
            effect_applied(old(players)@, final(players)@, *old(self), *final(self), turn.turn_number),
    {
        if !self.applied {
            let id = self.get_final_id().to_string();
            let ghost idv = id@;
            set_target_stat(players, &self.target, id, Some(Stat::new(self.stat_type, self.amount as i16)));
            proof {
                assert((|m: Map<Seq<char>, Stat>| match Some(effect_stat(*old(self))) { Some(s) => m.insert(idv, s), None => m.remove(idv) })
                    =~= (|m: Map<Seq<char>, Stat>| m.insert(old(self).id.0@, effect_stat(*old(self)))));
            }
            self.applied = true;
        }
        match self.expires {
            ExpireContract::Turns(remaining) => {
                match self.previous_turn {
                    Some(prev) => {
                        if prev != turn.turn_number && remaining > 0 {
                            self.expires = ExpireContract::Turns(remaining - 1);
                        }
                    },
                    None => {
                        self.previous_turn = Some(turn.turn_number);
                    },
                }
            },
            ExpireContract::Never => {},
        }
    }

    /// Takes the effect's stat off its target.
    pub fn cleanup(&self, players: &mut Vec<Player>)
        requires
            stats_wf(old(players)@),
        ensures
            stats_wf(final(players)@),
            effect_cleaned(old(players)@, final(players)@, *self),
    {
        let id = self.get_id().to_string();
        let ghost idv = id@;
        set_target_stat(players, &self.target, id, None);
        proof {
            assert((|m: Map<Seq<char>, Stat>| match Option::<Stat>::None { Some(s) => m.insert(idv, s), None => m.remove(idv) })
                =~= (|m: Map<Seq<char>, Stat>| m.remove(self.id.0@)));
        }
    }
}

/// Whether an effect comes from the card with the given id.
pub open spec fn from_source(e: StatModifierEffect, source: Seq<char>) -> bool {
    e.source_card matches Some(s) && s@ == source
}

/// A trace of running the effects `es` in order over the table `t0` in the
/// given turn: `tables[k]` is the table before effect `k`, `mids[k]` the table
/// once it is applied, `finals[k]` the effect after applying it, and
/// `keeps[k]` the effects kept before it. Each effect is applied, and each
/// that has run out is then cleaned up and dropped.
pub open spec fn effects_trace(
    t0: Seq<Player>,
    es: Seq<(EffectID, StatModifierEffect)>,
    turn_number: i32,
    tables: Seq<Seq<Player>>,
    mids: Seq<Seq<Player>>,
    finals: Seq<StatModifierEffect>,
    keeps: Seq<Seq<(EffectID, StatModifierEffect)>>,
) -> bool {
    &&& tables.len() == es.len() + 1
    &&& keeps.len() == es.len() + 1
    &&& mids.len() == es.len()
    &&& finals.len() == es.len()
    &&& tables[0] == t0
    &&& keeps[0].len() == 0
    &&& forall|k: int| 0 <= k < es.len() ==> {
        &&& effect_applied(#[trigger] tables[k], mids[k], es[k].1, finals[k], turn_number)
        &&& if expired(finals[k].expires) {
            effect_cleaned(mids[k], tables[k + 1], finals[k]) && keeps[k + 1] == keeps[k]
        } else {
            tables[k + 1] == mids[k] && keeps[k + 1] == keeps[k].push((es[k].0, finals[k]))
        }
    }
}

/// Running the effects `es` in order over the table `t0` in the given turn
/// leaves the table `t` and keeps `kept`.
pub open spec fn effects_run(
    t0: Seq<Player>,
    es: Seq<(EffectID, StatModifierEffect)>,
    turn_number: i32,
    t: Seq<Player>,
    kept: Seq<(EffectID, StatModifierEffect)>,
) -> bool {
    exists|tables: Seq<Seq<Player>>, mids: Seq<Seq<Player>>, finals: Seq<StatModifierEffect>, keeps: Seq<Seq<(EffectID, StatModifierEffect)>>|
        #![trigger effects_trace(t0, es, turn_number, tables, mids, finals, keeps)]
        effects_trace(t0, es, turn_number, tables, mids, finals, keeps) && tables.last() == t && keeps.last() == kept
}

/// A trace of dropping, in order, the effects of `es` that come from the card
/// `source`: `tables[k]` is the table before effect `k` and `keeps[k]` the
/// effects kept before it.
pub open spec fn sources_trace(
    t0: Seq<Player>,
    es: Seq<(EffectID, StatModifierEffect)>,
    source: Seq<char>,
    tables: Seq<Seq<Player>>,
    keeps: Seq<Seq<(EffectID, StatModifierEffect)>>,
) -> bool {
    &&& tables.len() == es.len() + 1
    &&& keeps.len() == es.len() + 1
    &&& tables[0] == t0
    &&& keeps[0].len() == 0
    &&& forall|k: int| 0 <= k < es.len() ==> if from_source(es[k].1, source) {
        effect_cleaned(#[trigger] tables[k], tables[k + 1], es[k].1) && keeps[k + 1] == keeps[k]
    } else {
        tables[k + 1] == tables[k] && keeps[k + 1] == keeps[k].push(es[k])
    }
}

/// Dropping, in order, the effects of `es` that come from the card `source`
/// takes their stats off the table `t0`, leaves `t`, and keeps the others.
pub open spec fn sources_removed(
    t0: Seq<Player>,
    es: Seq<(EffectID, StatModifierEffect)>,
    source: Seq<char>,
    t: Seq<Player>,
    kept: Seq<(EffectID, StatModifierEffect)>,
) -> bool {
    exists|tables: Seq<Seq<Player>>, keeps: Seq<Seq<(EffectID, StatModifierEffect)>>|
        #![trigger sources_trace(t0, es, source, tables, keeps)]
        sources_trace(t0, es, source, tables, keeps) && tables.last() == t && keeps.last() == kept
}

/// The effects in play, each under its id.
pub struct EffectManager {
    pub effects: Vec<(EffectID, StatModifierEffect)>,
}

impl EffectManager {
    /// The ids of the effects, in order.
    pub open spec fn ids(&self) -> Seq<Seq<char>> {
        self.effects@.map_values(|e: (EffectID, StatModifierEffect)| e.0.0@)
    }

    /// No id occurs twice.
    pub open spec fn wf(&self) -> bool {
        forall|i: int, j: int| 0 <= i < j < self.effects@.len() ==> (#[trigger] self.effects@[i]).0.0@ != (#[trigger] self.effects@[j]).0.0@
    }

    /// Where the effect with the given id is kept.
    fn position(&self, id: &EffectID) -> (r: Option<usize>)
        ensures
            match r {
                Some(i) => i < self.effects@.len() && self.effects@[i as int].0.0@ == id.0@,
                None => forall|i: int| 0 <= i < self.effects@.len() ==> (#[trigger] self.effects@[i]).0.0@ != id.0@,
            },
    {
        let mut i: usize = 0;
        while i < self.effects.len()
            invariant
                i <= self.effects@.len(),
                forall|j: int| 0 <= j < i ==> (#[trigger] self.effects@[j]).0.0@ != id.0@,
            decreases self.effects@.len() - i,
        {
            if self.effects[i].0.0 == id.0 {
                return Some(i);
            }
            i = i + 1;
        }
        None
    }

    /// A manager with no effects.
    pub fn new() -> (m: Self)
        ensures
            m.effects@.len() == 0,
            m.wf(),
    {
        EffectManager { effects: Vec::new() }
    }

    /// Keeps the effect under the given id, replacing what was kept there.
    pub fn add_effect(&mut self, effect_id: EffectID, effect: StatModifierEffect)
        requires
            old(self).wf(),
        ensures
            final(self).wf(),
            (exists|i: int| 0 <= i < old(self).effects@.len() && (#[trigger] old(self).effects@[i]).0.0@ == effect_id.0@ && final(self).effects@ == old(self).effects@.update(i, (effect_id, effect)))
            || ((forall|i: int| 0 <= i < old(self).effects@.len() ==> (#[trigger] old(self).effects@[i]).0.0@ != effect_id.0@)
                && final(self).effects@ == old(self).effects@.push((effect_id, effect))),
    {
        match self.position(&effect_id) {
            Some(i) => {
                let ghost idv = effect_id.0@;
                self.effects.set(i, (effect_id, effect));
                proof {
                    assert forall|a: int, b: int| 0 <= a < b < self.effects@.len() implies (#[trigger] self.effects@[a]).0.0@ != (#[trigger] self.effects@[b]).0.0@ by {
                        assert(old(self).effects@[a].0.0@ != old(self).effects@[b].0.0@);
                    }
                }
            },
            None => {
                self.effects.push((effect_id, effect));
            },
        }
    }

    /// Drops the effect kept under the given id.
    pub fn remove_effect(&mut self, effect_id: &EffectID)
        requires
            old(self).wf(),
        ensures
            final(self).wf(),
            (exists|i: int| 0 <= i < old(self).effects@.len() && (#[trigger] old(self).effects@[i]).0.0@ == effect_id.0@ && final(self).effects@ == old(self).effects@.remove(i))
            || ((forall|i: int| 0 <= i < old(self).effects@.len() ==> (#[trigger] old(self).effects@[i]).0.0@ != effect_id.0@)
                && final(self).effects@ == old(self).effects@),
    {
        match self.position(effect_id) {
            Some(i) => {
                self.effects.remove(i);
                proof {
                    assert forall|a: int, b: int| 0 <= a < b < self.effects@.len() implies (#[trigger] self.effects@[a]).0.0@ != (#[trigger] self.effects@[b]).0.0@ by {
                        let oa = if a < i { a } else { a + 1 };
                        let ob = if b < i { b } else { b + 1 };
                        assert(self.effects@[a] == old(self).effects@[oa]);
                        assert(self.effects@[b] == old(self).effects@[ob]);
                    }
                }
            },
            None => {},
        }
    }

    /// Whether an effect comes from the card with the given id.
    pub fn has_effects(&self, source_card: &String) -> (b: bool)
        ensures
            b == exists|i: int| 0 <= i < self.effects@.len() && from_source((#[trigger] self.effects@[i]).1, source_card@),
    {
        let mut i: usize = 0;
        while i < self.effects.len()
            invariant
                i <= self.effects@.len(),
                forall|j: int| 0 <= j < i ==> !from_source((#[trigger] self.effects@[j]).1, source_card@),
            decreases self.effects@.len() - i,
        {
            match &self.effects[i].1.source_card {
                Some(s) => {
                    if *s == *source_card {
                        return true;
                    }
                },
                None => {},
            }
            i = i + 1;
        }
        false
    }
    /// Applies every effect in the given turn, in order, and drops, cleaning
    /// them up, those that have run out.
    pub fn apply_effects(&mut self, turn: &Turn, players: &mut Vec<Player>)
        requires
            stats_wf(old(players)@),
            forall|i: int| 0 <= i < old(self).effects@.len() ==> (#[trigger] old(self).effects@[i]).1.source_card is Some,
        ensures
            stats_wf(final(players)@),
            effects_run(old(players)@, old(self).effects@, turn.turn_number, final(players)@, final(self).effects@),
    {
        let mut rest: Vec<(EffectID, StatModifierEffect)> = Vec::new();
        std::mem::swap(&mut rest, &mut self.effects);
        let total: usize = rest.len();
        let ghost es = rest@;
        let ghost t0 = players@;
        let ghost mut tables: Seq<Seq<Player>> = seq![t0];
        let ghost mut mids: Seq<Seq<Player>> = Seq::empty();
        let ghost mut finals: Seq<StatModifierEffect> = Seq::empty();
        let ghost mut keeps: Seq<Seq<(EffectID, StatModifierEffect)>> = seq![Seq::empty()];
        let mut kept: Vec<(EffectID, StatModifierEffect)> = Vec::new();
        let mut k: usize = 0;
        while rest.len() > 0
            invariant
                k <= es.len() == total,
                rest@ == es.subrange(k as int, es.len() as int),
                stats_wf(players@),
                effects_trace(t0, es.subrange(0, k as int), turn.turn_number, tables, mids, finals, keeps),
                tables.last() == players@,
                keeps.last() == kept@,
            decreases rest@.len(),
        {
            let (id, mut e) = rest.remove(0);
            let ghost e0 = e;
            proof {
                assert(es[k as int] == (id, e0));
            }
            e.apply(turn, players);
            let ghost ta = players@;
            let ghost e1 = e;
            if e.is_expired() {
                e.cleanup(players);
            } else {
                kept.push((id, e));
            }
            proof {
                let tables0 = tables;
                let keeps0 = keeps;
                let mids0 = mids;
                let finals0 = finals;
                let prev = es.subrange(0, k as int);
                mids = mids.push(ta);
                finals = finals.push(e1);
                tables = tables.push(players@);
                keeps = keeps.push(kept@);
                let pre = es.subrange(0, k as int + 1);
                assert forall|j: int| 0 <= j < pre.len() implies {
                    &&& effect_applied(#[trigger] tables[j], mids[j], pre[j].1, finals[j], turn.turn_number)
                    &&& if expired(finals[j].expires) {
                        effect_cleaned(mids[j], tables[j + 1], finals[j]) && keeps[j + 1] == keeps[j]
                    } else {
                        tables[j + 1] == mids[j] && keeps[j + 1] == keeps[j].push((pre[j].0, finals[j]))
                    }
                } by {
                    if j < k {
                        assert(pre[j] == prev[j]);
                        assert(tables[j] == tables0[j]);
                        assert(tables[j + 1] == tables0[j + 1]);
                        assert(keeps[j] == keeps0[j]);
                        assert(keeps[j + 1] == keeps0[j + 1]);
                        assert(mids[j] == mids0[j]);
                        assert(finals[j] == finals0[j]);
                        assert(effect_applied(tables0[j], mids0[j], prev[j].1, finals0[j], turn.turn_number));
                    } else {
                        assert(pre[j] == (id, e0));
                        assert(tables[j] == tables0.last());
                        assert(keeps[j] == keeps0.last());
                    }
                }
            }
            k = k + 1;
            proof {
                assert(rest@ =~= es.subrange(k as int, es.len() as int));
            }
        }
        proof {
            assert(es.subrange(0, es.len() as int) =~= es);
        }
        self.effects = kept;
    }

    /// Drops the effects that come from the given card, cleaning each up
    /// from the table in the order they are kept; the other effects stay,
    /// in their order.
    pub fn remove_effects_by_source(&mut self, source_card: &String, players: &mut Vec<Player>)
        requires
            stats_wf(old(players)@),
        ensures
            stats_wf(final(players)@),
            sources_removed(old(players)@, old(self).effects@, source_card@, final(players)@, final(self).effects@),
    {
        let mut rest: Vec<(EffectID, StatModifierEffect)> = Vec::new();
        std::mem::swap(&mut rest, &mut self.effects);
        let total: usize = rest.len();
        let ghost es = rest@;
        let ghost t0 = players@;
        let ghost mut tables: Seq<Seq<Player>> = seq![t0];
        let ghost mut keeps: Seq<Seq<(EffectID, StatModifierEffect)>> = seq![Seq::empty()];
        let mut kept: Vec<(EffectID, StatModifierEffect)> = Vec::new();
        let mut k: usize = 0;
        while rest.len() > 0
            invariant
                k <= es.len() == total,
                rest@ == es.subrange(k as int, es.len() as int),
                stats_wf(players@),
                sources_trace(t0, es.subrange(0, k as int), source_card@, tables, keeps),
                tables.last() == players@,
                keeps.last() == kept@,
            decreases rest@.len(),
        {
            let entry = rest.remove(0);
            proof {
                assert(es[k as int] == entry);
            }
            let matches = match &entry.1.source_card {
                Some(s) => *s == *source_card,
                None => false,
            };
            if matches {
                entry.1.cleanup(players);
            } else {
                kept.push(entry);
            }
            proof {
                let tables0 = tables;
                let keeps0 = keeps;
                let prev = es.subrange(0, k as int);
                tables = tables.push(players@);
                keeps = keeps.push(kept@);
                let pre = es.subrange(0, k as int + 1);
                assert forall|j: int| 0 <= j < pre.len() implies if from_source(pre[j].1, source_card@) {
                    effect_cleaned(#[trigger] tables[j], tables[j + 1], pre[j].1) && keeps[j + 1] == keeps[j]
                } else {
                    tables[j + 1] == tables[j] && keeps[j + 1] == keeps[j].push(pre[j])
                } by {
                    if j < k {
                        assert(pre[j] == prev[j]);
                        assert(tables[j] == tables0[j]);
                        assert(tables[j + 1] == tables0[j + 1]);
                        assert(keeps[j] == keeps0[j]);
                        assert(keeps[j + 1] == keeps0[j + 1]);
                        assert(if from_source(prev[j].1, source_card@) {
                            effect_cleaned(tables0[j], tables0[j + 1], prev[j].1) && keeps0[j + 1] == keeps0[j]
                        } else {
                            tables0[j + 1] == tables0[j] && keeps0[j + 1] == keeps0[j].push(prev[j])
                        });
                    } else {
                        assert(pre[j] == entry);
                        assert(tables[j] == tables0.last());
                        assert(keeps[j] == keeps0.last());
                    }
                }
            }
            k = k + 1;
            proof {
                assert(rest@ =~= es.subrange(k as int, es.len() as int));
            }
        }
        proof {
            assert(es.subrange(0, es.len() as int) =~= es);
        }
        self.effects = kept;
    }
}


} // verus!

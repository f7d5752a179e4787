//! Resetting a card: the effects it is the source of go, and the card turns
//! back into the pristine copy its owner's deck keeps of it.
use vstd::prelude::*;
use crate::action::{CardAction, CardActionWrapper, GameAction};
use crate::card::{Card, same_card};
use crate::deck::last_with_id;
use crate::effects::{effect_cleaned, sources_removed, sources_trace, stats_wf};
use crate::execute::{acting_card, acting_pos, card_action_ready, card_set, found_at, owner_seat};
use crate::game::{FrontendPileName, Game, pile_of};
use crate::player::Player;
use crate::table::{card_replaced, first_named};

verus! {

/// `t1` is `t0` changed in stats at most: the same players with the same
/// cards, the stats of players and of cards in play aside.
pub open spec fn stats_only(t0: Seq<Player>, t1: Seq<Player>) -> bool {
    &&& t1.len() == t0.len()
    &&& forall|pi: int| 0 <= pi < t0.len() ==> {
        &&& #[trigger] t1[pi] == (Player { stat_manager: t1[pi].stat_manager, cards_in_play: t1[pi].cards_in_play, ..t0[pi] })
        &&& t1[pi].cards_in_play@.len() == t0[pi].cards_in_play@.len()
        &&& forall|ci: int| 0 <= ci < t0[pi].cards_in_play@.len() ==>
            #[trigger] t1[pi].cards_in_play@[ci] == (Card { stats: t1[pi].cards_in_play@[ci].stats, ..t0[pi].cards_in_play@[ci] })
    }
}

/// Changes in stats only, one after the other, are a change in stats only.
proof fn lemma_stats_only_trans(t0: Seq<Player>, t1: Seq<Player>, t2: Seq<Player>)
    requires
        stats_only(t0, t1),
        stats_only(t1, t2),
    ensures
        stats_only(t0, t2),
{
    assert forall|pi: int| 0 <= pi < t0.len() implies {
        &&& #[trigger] t2[pi] == (Player { stat_manager: t2[pi].stat_manager, cards_in_play: t2[pi].cards_in_play, ..t0[pi] })
        &&& t2[pi].cards_in_play@.len() == t0[pi].cards_in_play@.len()
        &&& forall|ci: int| 0 <= ci < t0[pi].cards_in_play@.len() ==>
            #[trigger] t2[pi].cards_in_play@[ci] == (Card { stats: t2[pi].cards_in_play@[ci].stats, ..t0[pi].cards_in_play@[ci] })
    } by {
        assert(t1[pi] == (Player { stat_manager: t1[pi].stat_manager, cards_in_play: t1[pi].cards_in_play, ..t0[pi] }));
        assert(t2[pi] == (Player { stat_manager: t2[pi].stat_manager, cards_in_play: t2[pi].cards_in_play, ..t1[pi] }));
        assert forall|ci: int| 0 <= ci < t0[pi].cards_in_play@.len() implies
            #[trigger] t2[pi].cards_in_play@[ci] == (Card { stats: t2[pi].cards_in_play@[ci].stats, ..t0[pi].cards_in_play@[ci] }) by {
            assert(t1[pi].cards_in_play@[ci] == (Card { stats: t1[pi].cards_in_play@[ci].stats, ..t0[pi].cards_in_play@[ci] }));
            assert(t2[pi].cards_in_play@[ci] == (Card { stats: t2[pi].cards_in_play@[ci].stats, ..t1[pi].cards_in_play@[ci] }));
        }
    }
}

/// Cleaning up one effect changes stats only.
proof fn lemma_cleaned_stats_only(t0: Seq<Player>, t1: Seq<Player>, e: crate::effects::StatModifierEffect)
    requires
        effect_cleaned(t0, t1, e),
    ensures
        stats_only(t0, t1),
{
    match e.target {
        crate::effects::EffectTarget::Card(id) => {
            if !crate::table::nowhere_in_play(t0, id@) {
                let (ai, aj) = choose|ai: int, aj: int| crate::table::in_play_at(t0, id@, ai, aj);
                crate::table::lemma_first_in_play_exists(t0, id@, ai, aj);
                let (pi, ci) = choose|pi: int, ci: int| crate::table::first_in_play(t0, id@, pi, ci);
                let c0 = t0[pi].cards_in_play@[ci];
                let c = choose|c: Card| #![trigger card_replaced(t0, t1, pi, ci, c)] {
                    &&& card_replaced(t0, t1, pi, ci, c)
                    &&& c == (Card { stats: c.stats, ..c0 })
                    &&& c.stats.as_map() == (|m: Map<Seq<char>, crate::stat::Stat>| m.remove(e.id.0@))(c0.stats.as_map())
                    &&& c.stats.listeners == c0.stats.listeners
                };
                assert forall|qi: int| 0 <= qi < t0.len() implies {
                    &&& #[trigger] t1[qi] == (Player { stat_manager: t1[qi].stat_manager, cards_in_play: t1[qi].cards_in_play, ..t0[qi] })
                    &&& t1[qi].cards_in_play@.len() == t0[qi].cards_in_play@.len()
                    &&& forall|cj: int| 0 <= cj < t0[qi].cards_in_play@.len() ==>
                        #[trigger] t1[qi].cards_in_play@[cj] == (Card { stats: t1[qi].cards_in_play@[cj].stats, ..t0[qi].cards_in_play@[cj] })
                } by {
                    if qi != pi {
                        assert(t1[qi] == t0[qi]);
                    } else {
                        assert forall|cj: int| 0 <= cj < t0[qi].cards_in_play@.len() implies
                            #[trigger] t1[qi].cards_in_play@[cj] == (Card { stats: t1[qi].cards_in_play@[cj].stats, ..t0[qi].cards_in_play@[cj] }) by {
                            if cj != ci {
                                assert(t1[qi].cards_in_play@[cj] == t0[qi].cards_in_play@[cj]);
                            }
                        }
                    }
                }
            }
        },
        crate::effects::EffectTarget::Player(name) => {
            if !(forall|j: int| 0 <= j < t0.len() ==> (#[trigger] t0[j]).name@ != name@) {
                let j0 = choose|j: int| 0 <= j < t0.len() && (#[trigger] t0[j]).name@ == name@;
                crate::table::lemma_first_named_exists(t0, name@, j0);
                let pi = choose|pi: int| first_named(t0, name@, pi);
                let p0 = t0[pi];
                let p = choose|p: Player| #![trigger t0.update(pi, p)] {
                    &&& t1 == t0.update(pi, p)
                    &&& p == (Player { stat_manager: p.stat_manager, ..p0 })
                    &&& p.stat_manager.as_map() == (|m: Map<Seq<char>, crate::stat::Stat>| m.remove(e.id.0@))(p0.stat_manager.as_map())
                    &&& p.stat_manager.listeners == p0.stat_manager.listeners
                };
                assert forall|qi: int| 0 <= qi < t0.len() implies {
                    &&& #[trigger] t1[qi] == (Player { stat_manager: t1[qi].stat_manager, cards_in_play: t1[qi].cards_in_play, ..t0[qi] })
                    &&& t1[qi].cards_in_play@.len() == t0[qi].cards_in_play@.len()
                    &&& forall|cj: int| 0 <= cj < t0[qi].cards_in_play@.len() ==>
                        #[trigger] t1[qi].cards_in_play@[cj] == (Card { stats: t1[qi].cards_in_play@[cj].stats, ..t0[qi].cards_in_play@[cj] })
                } by {
                    assert(t1[qi] == t0.update(pi, p)[qi]);
                }
            }
        },
    }
}

/// The first `k` steps of a trace of dropped effects change stats only.
proof fn lemma_trace_stats_only(t0: Seq<Player>, es: Seq<(crate::effects::EffectID, crate::effects::StatModifierEffect)>, source: Seq<char>, tables: Seq<Seq<Player>>, keeps: Seq<Seq<(crate::effects::EffectID, crate::effects::StatModifierEffect)>>, k: int)
    requires
        sources_trace(t0, es, source, tables, keeps),
        0 <= k <= es.len(),
    ensures
        stats_only(t0, tables[k]),
    decreases k,
{
    if k == 0 {
        assert(stats_only(t0, tables[0]));
    } else {
        lemma_trace_stats_only(t0, es, source, tables, keeps, k - 1);
        let j = k - 1;
        if crate::effects::from_source(es[j].1, source) {
            assert(effect_cleaned(tables[j], tables[j + 1], es[j].1));
            lemma_cleaned_stats_only(tables[j], tables[j + 1], es[j].1);
            lemma_stats_only_trans(t0, tables[j], tables[j + 1]);
        } else {
            assert(tables[j + 1] == tables[j]);
        }
    }
}

/// Dropping the effects of a source, one after another, changes stats only.
pub proof fn lemma_sources_removed_stats_only(t0: Seq<Player>, es: Seq<(crate::effects::EffectID, crate::effects::StatModifierEffect)>, source: Seq<char>, t: Seq<Player>, kept: Seq<(crate::effects::EffectID, crate::effects::StatModifierEffect)>)
    requires
        sources_removed(t0, es, source, t, kept),
    ensures
        stats_only(t0, t),
{
    let (tables, keeps) = choose|tables: Seq<Seq<Player>>, keeps: Seq<Seq<(crate::effects::EffectID, crate::effects::StatModifierEffect)>>|
        #![trigger sources_trace(t0, es, source, tables, keeps)]
        sources_trace(t0, es, source, tables, keeps) && tables.last() == t && keeps.last() == kept;
    lemma_trace_stats_only(t0, es, source, tables, keeps, es.len() as int);
}

/// How resetting the acting card changes the game from `g0` to `g1`: the
/// effects it is the source of are dropped and cleaned up, and then, when
/// its owner's deck keeps a pristine copy of it, the card is that copy.
pub open spec fn card_reset(g0: Game, g1: Game, w: CardActionWrapper, r: Result<Vec<GameAction>, String>) -> bool {
    let players = g0.players@;
    let (pi, pile, k) = acting_pos(players, w.card@);
    let c = acting_card(players, w.card@);
    let o = owner_seat(players, w.card@);
    &&& r matches Ok(v) && v@.len() == 0
    &&& exists|gm: Game| #![trigger sources_removed(players, g0.effect_manager.effects@, c.id@, gm.players@, gm.effect_manager.effects@)] {
        &&& sources_removed(players, g0.effect_manager.effects@, c.id@, gm.players@, gm.effect_manager.effects@)
        &&& gm == (Game { players: gm.players, effect_manager: gm.effect_manager, ..g0 })
        &&& match last_with_id(players[o].deck.map@, c.id@) {
            Some(i) => exists|f: Card| #[trigger] same_card(f, players[o].deck.map@[i]) && card_set(gm, g1, pi, pile, k, f),
            None => g1 == gm,
        }
    }
}

impl Game {
    /// Resets the acting card.
    pub(crate) fn reset_card(&mut self, w: &CardActionWrapper, pi: usize, pile: FrontendPileName, k: usize, o: usize, card: &Card) -> (r: Result<Vec<GameAction>, String>)
        requires
            card_action_ready(*old(self), *w),
            w.action is ResetCard,
            found_at(old(self).players@, w.card@, pi as int, pile, k as int),
            acting_pos(old(self).players@, w.card@) == (pi as int, pile, k as int),
            o as int == owner_seat(old(self).players@, w.card@),
            0 <= o < old(self).players@.len(),
            same_card(*card, acting_card(old(self).players@, w.card@)),
        ensures
            card_reset(*old(self), *final(self), *w, r),
    {
        let ghost g0 = *self;
        self.effect_manager.remove_effects_by_source(&card.id, &mut self.players);
        let ghost gm = *self;
        proof {
            lemma_sources_removed_stats_only(g0.players@, g0.effect_manager.effects@, card.id@, gm.players@, gm.effect_manager.effects@);
            assert(gm.players@[o as int].deck == g0.players@[o as int].deck);
            assert(pile != FrontendPileName::Play ==> pile_of(gm.players@[pi as int], pile) == pile_of(g0.players@[pi as int], pile));
            assert(pile_of(gm.players@[pi as int], pile).len() == pile_of(g0.players@[pi as int], pile).len());
        }
        match self.players[o].deck.fresh(&card.id) {
            Some(f) => {
                let _old = self.take_card(pi, pile, k);
                let ghost g1 = *self;
                let ghost fv = f;
                self.put_card(pi, pile, k, f);
                proof {
                    Self::lemma_take_put(gm, g1, *self, pi as int, pile, k as int, fv);
                }
            },
            None => {},
        }
        Ok(Vec::new())
    }
}

} // verus!

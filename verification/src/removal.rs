//! Taking a card off the battlefield, to the graveyard or into exile, and
//! the actions that the cards at the table answer it with.
use vstd::prelude::*;
use crate::action::{ActionTriggerType, CardActionTrigger, CardActionWrapper, GameAction, PhaseTarget, copy_triggers, same_action, same_trigger, same_triggers};
use crate::card::{Card, CardType, same_cards};
use crate::stat::{StatType, Stats};
use crate::deck::{DeckPile, deck_gained};
use crate::game::{FrontendTarget, Game, holds_card, locates, pile_holds};
use crate::player::Player;
use crate::table::{before, find_card_in_play, first_in_play, in_play_at, nowhere_in_play, lemma_first_in_play_exists};
use crate::effects::lemma_first_in_play_unique;

verus! {

/// Each trigger of a card with the card's seat and place.
pub open spec fn placed_of_card(pi: int, ci: int, ts: Seq<CardActionTrigger>) -> Seq<(int, int, CardActionTrigger)> {
    ts.map_values(|t: CardActionTrigger| (pi, ci, t))
}

/// The triggers of the cards of seat `pi`, card by card.
pub open spec fn placed_of_cards(pi: int, cards: Seq<Card>) -> Seq<(int, int, CardActionTrigger)>
    decreases cards.len(),
{
    if cards.len() == 0 {
        Seq::empty()
    } else {
        placed_of_cards(pi, cards.drop_last()) + placed_of_card(pi, cards.len() - 1, cards.last().triggers@)
    }
}

/// The triggers of the cards in play, seat by seat and card by card, each
/// with its card's seat and place.
pub open spec fn placed_triggers(players: Seq<Player>) -> Seq<(int, int, CardActionTrigger)>
    decreases players.len(),
{
    if players.len() == 0 {
        Seq::empty()
    } else {
        placed_triggers(players.drop_last()) + placed_of_cards(players.len() - 1, players.last().cards_in_play@)
    }
}

/// Where the card with the given id is taken off the battlefield: the first
/// place, seat by seat, that holds it; none when no card in play has it.
pub open spec fn removal_at(players: Seq<Player>, id: Seq<char>) -> Option<(int, int)> {
    if nowhere_in_play(players, id) {
        None
    } else {
        Some(choose|pi: int, ci: int| first_in_play(players, id, pi, ci))
    }
}

/// How a trigger answers a removal: `Some(true)` when it is the removed
/// card's own trigger for it, `Some(false)` when another card answers it,
/// `None` when it does not answer.
pub open spec fn answer_kind(tt: ActionTriggerType, own: bool, pile: DeckPile) -> Option<bool> {
    match pile {
        DeckPile::Graveyard => match tt {
            ActionTriggerType::CardDestroyed => if own { Some(true) } else { None },
            ActionTriggerType::OtherCardDestroyed(_) => if own { None } else { Some(false) },
            _ => None,
        },
        DeckPile::Exiled => match tt {
            ActionTriggerType::CardExiled => if own { Some(true) } else { None },
            ActionTriggerType::OtherCardExiled(_) => if own { None } else { Some(false) },
            _ => None,
        },
    }
}

/// The trigger belongs to the card taken off the battlefield.
pub open spec fn is_own(e: (int, int, CardActionTrigger), at: Option<(int, int)>) -> bool {
    at matches Some(p) && p.0 == e.0 && p.1 == e.1
}

/// The walk over the table has reached the removed card when it comes to
/// this trigger, so the trigger sees the table without it.
pub open spec fn sees_after(e: (int, int, CardActionTrigger), at: Option<(int, int)>) -> bool {
    at matches Some(p) && !before(e.0, e.1, p.0, p.1)
}

/// A trigger answers a removal to the given pile for every player alike,
/// not for the opponents only.
pub open spec fn not_for_opponents(tt: ActionTriggerType, pile: DeckPile) -> bool {
    match pile {
        DeckPile::Graveyard => tt != ActionTriggerType::OtherCardDestroyed(PhaseTarget::Opponent),
        DeckPile::Exiled => tt != ActionTriggerType::OtherCardExiled(PhaseTarget::Opponent),
    }
}

/// No card in play answers the removal for the opponents only.
pub open spec fn no_opponent_answers(players: Seq<Player>, pile: DeckPile) -> bool {
    forall|pi: int, ci: int, t: int|
        0 <= pi < players.len() && 0 <= ci < players[pi].cards_in_play@.len()
            && 0 <= t < players[pi].cards_in_play@[ci].triggers@.len()
            ==> not_for_opponents(#[trigger] players[pi].cards_in_play@[ci].triggers@[t].trigger_type, pile)
}

/// `post` is `pre` with the card at `at` taken off the battlefield and a
/// pristine copy of it put on the pile; unchanged when `at` is none.
pub open spec fn removal_done(pre: Seq<Player>, post: Seq<Player>, at: Option<(int, int)>, pile: DeckPile) -> bool {
    match at {
        None => post == pre,
        Some(p) => {
            &&& post.len() == pre.len()
            &&& forall|j: int| 0 <= j < pre.len() && j != p.0 ==> #[trigger] post[j] == pre[j]
            &&& post[p.0] == (Player { cards_in_play: post[p.0].cards_in_play, deck: post[p.0].deck, ..pre[p.0] })
            &&& post[p.0].cards_in_play@ == pre[p.0].cards_in_play@.remove(p.1)
            &&& deck_gained(pre[p.0].deck, post[p.0].deck, pre[p.0].cards_in_play@[p.1].id@, pile)
        },
    }
}

/// Some player holds the card in a hand, on the stack, on the battlefield or
/// in a draw pile.
pub open spec fn located(players: Seq<Player>, id: Seq<char>) -> bool {
    exists|pi: int| 0 <= pi < players.len() && #[trigger] holds_card(players[pi], id)
}

/// The id of the card another card's answer points at: the answering card
/// itself for a destruction, the exiled card for an exile.
pub open spec fn pointed_id(pre: Seq<Player>, e: (int, int, CardActionTrigger), removed: Seq<char>, pile: DeckPile) -> Seq<char> {
    match pile {
        DeckPile::Graveyard => pre[e.0].cards_in_play@[e.1].id@,
        DeckPile::Exiled => removed,
    }
}

/// `a` is the action the trigger fires: the trigger's action for the removed
/// card under the trigger's id, aimed at nothing for the removed card's own
/// trigger, and at where the pointed card lies on the table `seen` for
/// another card's.
pub open spec fn fired(a: GameAction, e: (int, int, CardActionTrigger), own: bool, removed: Seq<char>, seen: Seq<Player>, pointed: Seq<char>) -> bool {
    &&& a matches GameAction::Card(w)
    &&& a->Card_0.card@ == removed
    &&& same_action(a->Card_0.action, e.2.action)
    &&& a->Card_0.ability_id matches Some(i) && i@ == e.2.id@
    &&& if own {
        a->Card_0.target is None
    } else {
        a->Card_0.target matches Some(FrontendTarget::Card(t)) && locates(seen, pointed, t)
    }
}

/// The actions that the triggers fire, in order, when the card with id
/// `removed` is taken from `at` on `pre`, leaving `post`.
pub open spec fn removal_trace(
    entries: Seq<(int, int, CardActionTrigger)>,
    r: Seq<GameAction>,
    pre: Seq<Player>,
    post: Seq<Player>,
    at: Option<(int, int)>,
    removed: Seq<char>,
    pile: DeckPile,
) -> bool
    decreases entries.len(),
{
    if entries.len() == 0 {
        r.len() == 0
    } else {
        let e = entries.last();
        match answer_kind(e.2.trigger_type, is_own(e, at), pile) {
            None => removal_trace(entries.drop_last(), r, pre, post, at, removed, pile),
            Some(own) => {
                &&& r.len() > 0
                &&& removal_trace(entries.drop_last(), r.drop_last(), pre, post, at, removed, pile)
                &&& fired(r.last(), e, own, removed, if sees_after(e, at) { post } else { pre }, pointed_id(pre, e, removed, pile))
            },
        }
    }
}

/// Another card's trigger at `(pi, ci, t)` answers the removal, but the card
/// it points at lies nowhere on the table it sees.
pub open spec fn answer_fails(pre: Seq<Player>, post: Seq<Player>, at: Option<(int, int)>, removed: Seq<char>, pile: DeckPile, pi: int, ci: int, t: int) -> bool {
    &&& 0 <= pi < pre.len()
    &&& 0 <= ci < pre[pi].cards_in_play@.len()
    &&& 0 <= t < pre[pi].cards_in_play@[ci].triggers@.len()
    &&& {
        let e = (pi, ci, pre[pi].cards_in_play@[ci].triggers@[t]);
        &&& answer_kind(e.2.trigger_type, is_own(e, at), pile) == Some(false)
        &&& !located(if sees_after(e, at) { post } else { pre }, pointed_id(pre, e, removed, pile))
    }
}

/// Whether the trigger answers a removal to the pile, and how.
fn answer_of(tt: &ActionTriggerType, own: bool, pile: DeckPile) -> (r: Option<bool>)
    ensures
        r == answer_kind(*tt, own, pile),
{
    match pile {
        DeckPile::Graveyard => match tt {
            ActionTriggerType::CardDestroyed => if own { Some(true) } else { None },
            ActionTriggerType::OtherCardDestroyed(_) => if own { None } else { Some(false) },
            _ => None,
        },
        DeckPile::Exiled => match tt {
            ActionTriggerType::CardExiled => if own { Some(true) } else { None },
            ActionTriggerType::OtherCardExiled(_) => if own { None } else { Some(false) },
            _ => None,
        },
    }
}

pub proof fn lemma_removal_at(players: Seq<Player>, id: Seq<char>, pi: int, ci: int)
    requires
        first_in_play(players, id, pi, ci),
    ensures
        removal_at(players, id) == Some((pi, ci)),
{
    assert(in_play_at(players, id, pi, ci));
    assert(!nowhere_in_play(players, id));
    let (qi, qj) = choose|qi: int, qj: int| first_in_play(players, id, qi, qj);
    lemma_first_in_play_unique(players, id, pi, ci, qi, qj);
}

pub proof fn lemma_trace_before_removal(
    entries: Seq<(int, int, CardActionTrigger)>,
    r: Seq<GameAction>,
    pre: Seq<Player>,
    post1: Seq<Player>,
    post2: Seq<Player>,
    at: Option<(int, int)>,
    removed: Seq<char>,
    pile: DeckPile,
)
    requires
        removal_trace(entries, r, pre, post1, at, removed, pile),
        forall|k: int| 0 <= k < entries.len() ==> !sees_after(#[trigger] entries[k], at),
    ensures
        removal_trace(entries, r, pre, post2, at, removed, pile),
    decreases entries.len(),
{
    if entries.len() > 0 {
        let e = entries.last();
        assert(!sees_after(entries[entries.len() - 1], at));
        match answer_kind(e.2.trigger_type, is_own(e, at), pile) {
            None => lemma_trace_before_removal(entries.drop_last(), r, pre, post1, post2, at, removed, pile),
            Some(_) => lemma_trace_before_removal(entries.drop_last(), r.drop_last(), pre, post1, post2, at, removed, pile),
        }
    }
}

impl Game {
    /// Takes the card with the given id off the battlefield to the pile and
    /// collects the actions the table answers with, walking the table seat
    /// by seat and card by card; each answer points at a place on the table
    /// as it stands when the walk reaches it. Stops at the first answer whose
    /// card cannot be found.
    fn walk_removal(&mut self, card: &Card, pile: DeckPile) -> (r: Result<Vec<GameAction>, String>)
        requires
            no_opponent_answers(old(self).players@, pile),
        ensures
            removal_done(old(self).players@, final(self).players@, removal_at(old(self).players@, card.id@), pile),
            *final(self) == (Game { players: final(self).players, ..*old(self) }),
            match r {
                Ok(v) => removal_trace(placed_triggers(old(self).players@), v@, old(self).players@, final(self).players@,
                    removal_at(old(self).players@, card.id@), card.id@, pile),
                Err(e) => pile == DeckPile::Exiled
                    && e@ == "Unable to find frontend target for card "@ + card.name@
                    && exists|pi: int, ci: int, t: int| #[trigger] answer_fails(old(self).players@, final(self).players@,
                        removal_at(old(self).players@, card.id@), card.id@, pile, pi, ci, t),
            },
    {
        let ghost pre = self.players@;
        let at = find_card_in_play(&self.players, &card.id);
        let ghost at_spec: Option<(int, int)> = match at {
            Some((a, b)) => Some((a as int, b as int)),
            None => None,
        };
        proof {
            match at {
                Some((a, b)) => lemma_removal_at(pre, card.id@, a as int, b as int),
                None => {},
            }
        }
        let ghost mut post: Seq<Player> = pre;
        let mut removed = false;
        let mut r: Vec<GameAction> = Vec::new();
        let ghost mut done: Seq<(int, int, CardActionTrigger)> = Seq::empty();
        let mut pi: usize = 0;
        while pi < self.players.len()
            invariant
                pre == old(self).players@,
                at_spec == removal_at(pre, card.id@),
                at_spec matches Some(p) ==> first_in_play(pre, card.id@, p.0, p.1),
                match at { Some((a, b)) => at_spec == Some((a as int, b as int)), None => at_spec is None },
                no_opponent_answers(pre, pile),
                self.players@.len() == pre.len(),
                pi <= pre.len(),
                done == placed_triggers(pre.subrange(0, pi as int)),
                forall|k: int| 0 <= k < done.len() ==> (#[trigger] done[k]).0 < pi,
                removed <==> (at_spec matches Some(p) && p.0 < pi),
                removed ==> self.players@ == post && removal_done(pre, post, at_spec, pile),
                !removed ==> self.players@ == pre && post == pre,
                removal_trace(done, r@, pre, post, at_spec, card.id@, pile),
                *self == (Game { players: self.players, ..*old(self) }),
            decreases pre.len() - pi,
        {
            let n = self.players[pi].cards_in_play.len();
            let ghost base = done;
            proof {
                assert(pre.subrange(0, pi as int + 1).drop_last() =~= pre.subrange(0, pi as int));
                assert(n == pre[pi as int].cards_in_play@.len());
            }
            let mut ci: usize = 0;
            while ci < n
                invariant
                    pre == old(self).players@,
                at_spec == removal_at(pre, card.id@),
                    at_spec matches Some(p) ==> first_in_play(pre, card.id@, p.0, p.1),
                    match at { Some((a, b)) => at_spec == Some((a as int, b as int)), None => at_spec is None },
                    no_opponent_answers(pre, pile),
                    self.players@.len() == pre.len(),
                    pi < pre.len(),
                    n == pre[pi as int].cards_in_play@.len(),
                    ci <= n,
                    base == placed_triggers(pre.subrange(0, pi as int)),
                    done == base + placed_of_cards(pi as int, pre[pi as int].cards_in_play@.subrange(0, ci as int)),
                    forall|k: int| 0 <= k < done.len() ==> (#[trigger] done[k]).0 < pi || (done[k].0 == pi && done[k].1 < ci),
                    removed <==> (at_spec matches Some(p) && (p.0 < pi || (p.0 == pi && p.1 < ci))),
                    removed ==> self.players@ == post && removal_done(pre, post, at_spec, pile),
                    !removed ==> self.players@ == pre && post == pre,
                    removal_trace(done, r@, pre, post, at_spec, card.id@, pile),
                    *self == (Game { players: self.players, ..*old(self) }),
                decreases n - ci,
            {
                let is_at = match at {
                    Some((a, b)) => a == pi && b == ci,
                    None => false,
                };
                let ghost mid = done;
                let ghost pc = pre[pi as int].cards_in_play@[ci as int];
                proof {
                    assert(pre[pi as int].cards_in_play@.subrange(0, ci as int + 1).drop_last() =~= pre[pi as int].cards_in_play@.subrange(0, ci as int));
                }
                let mut idx: usize = ci;
                let trig: Vec<CardActionTrigger>;
                if is_at {
                    trig = copy_triggers(&self.players[pi].cards_in_play[ci].triggers);
                    let mut p = self.players.remove(pi);
                    match pile {
                        DeckPile::Graveyard => p.destroy_card_in_play(ci),
                        DeckPile::Exiled => p.exile_card_in_play(ci),
                    }
                    self.players.insert(pi, p);
                    removed = true;
                    proof {
                        let post0 = post;
                        post = self.players@;
                        assert forall|k: int| 0 <= k < done.len() implies !sees_after(#[trigger] done[k], at_spec) by {
                            assert(done[k].0 < pi || (done[k].0 == pi && done[k].1 < ci));
                        }
                        lemma_trace_before_removal(done, r@, pre, post0, post, at_spec, card.id@, pile);
                        assert forall|j: int| 0 <= j < pre.len() && j != pi implies #[trigger] post[j] == pre[j] by {
                            if j < pi {
                                assert(post[j] == pre[j]);
                            } else {
                                assert(post[j] == pre[j]);
                            }
                        }
                    }
                } else {
                    if removed {
                        match at {
                            Some((a, b)) => {
                                if a == pi && b < ci {
                                    idx = ci - 1;
                                }
                            },
                            None => {},
                        }
                    }
                    proof {
                        if removed {
                            let p = at_spec->Some_0;
                            if p.0 == pi && p.1 < ci {
                                assert(self.players@[pi as int].cards_in_play@[idx as int] == pc);
                            } else if p.0 != pi {
                                assert(self.players@[pi as int] == pre[pi as int]);
                            }
                        }
                        assert(self.players@[pi as int].cards_in_play@[idx as int] == pc);
                    }
                    trig = copy_triggers(&self.players[pi].cards_in_play[idx].triggers);
                }
                proof {
                    assert(same_triggers(trig@, pc.triggers@));
                }
                let mut t: usize = 0;
                while t < trig.len()
                    invariant
                        pre == old(self).players@,
                at_spec == removal_at(pre, card.id@),
                        at_spec matches Some(p) ==> first_in_play(pre, card.id@, p.0, p.1),
                        no_opponent_answers(pre, pile),
                        self.players@.len() == pre.len(),
                        pi < pre.len(),
                        ci < pre[pi as int].cards_in_play@.len(),
                        pc == pre[pi as int].cards_in_play@[ci as int],
                        same_triggers(trig@, pc.triggers@),
                        t <= trig@.len(),
                        is_at == (at_spec matches Some(p) && p.0 == pi && p.1 == ci),
                        done == mid + placed_of_card(pi as int, ci as int, pc.triggers@.subrange(0, t as int)),
                        forall|k: int| 0 <= k < done.len() ==> (#[trigger] done[k]).0 < pi || (done[k].0 == pi && done[k].1 <= ci),
                        removed <==> (at_spec matches Some(p) && (p.0 < pi || (p.0 == pi && p.1 <= ci))),
                        removed ==> self.players@ == post && removal_done(pre, post, at_spec, pile),
                        !removed ==> self.players@ == pre && post == pre,
                        !is_at ==> idx < self.players@[pi as int].cards_in_play@.len() && self.players@[pi as int].cards_in_play@[idx as int] == pc,
                        removal_trace(done, r@, pre, post, at_spec, card.id@, pile),
                        *self == (Game { players: self.players, ..*old(self) }),
                    decreases trig@.len() - t,
                {
                    let tr = &trig[t];
                    let ghost e = (pi as int, ci as int, pc.triggers@[t as int]);
                    proof {
                        assert(same_trigger(trig@[t as int], pc.triggers@[t as int]));
                        assert(not_for_opponents(pre[pi as int].cards_in_play@[ci as int].triggers@[t as int].trigger_type, pile));
                        assert(sees_after(e, at_spec) == removed);
                        assert(is_own(e, at_spec) == is_at);
                    }
                    let ans = answer_of(&tr.trigger_type, is_at, pile);
                    proof {
                        assert(ans == answer_kind(e.2.trigger_type, is_own(e, at_spec), pile));
                    }
                    let ghost before_r = r@;
                    match ans {
                        None => {},
                        Some(own) => {
                            if own {
                                r.push(GameAction::Card(CardActionWrapper {
                                    card: card.id.clone(),
                                    action: tr.action.copy(),
                                    target: None,
                                    ability_id: Some(tr.id.clone()),
                                }));
                            } else {
                                let found = match pile {
                                    DeckPile::Graveyard => self.frontend_target_from_card(&self.players[pi].cards_in_play[idx]),
                                    DeckPile::Exiled => self.frontend_target_from_card(card),
                                };
                                match found {
                                    Ok(ft) => {
                                        r.push(GameAction::Card(CardActionWrapper {
                                            card: card.id.clone(),
                                            action: tr.action.copy(),
                                            target: Some(FrontendTarget::Card(ft)),
                                            ability_id: Some(tr.id.clone()),
                                        }));
                                    },
                                    Err(msg) => {
                                        proof {
                                            if pile == DeckPile::Graveyard {
                                                let q = self.players@[pi as int];
                                                assert(q.cards_in_play@[idx as int].id@ == pc.id@);
                                                assert(pile_holds(q.cards_in_play@, pc.id@));
                                                assert(holds_card(q, pc.id@));
                                                assert(false);
                                            }
                                            if !removed && at_spec is Some {
                                                let p = at_spec->Some_0;
                                                assert(in_play_at(pre, card.id@, p.0, p.1));
                                                assert(pre[p.0].cards_in_play@[p.1].id@ == card.id@);
                                                assert(pile_holds(pre[p.0].cards_in_play@, card.id@));
                                                assert(holds_card(self.players@[p.0], card.id@));
                                                assert(false);
                                            }
                                            assert(answer_fails(pre, self.players@, at_spec, card.id@, pile, pi as int, ci as int, t as int));
                                        }
                                        return Err(msg);
                                    },
                                }
                            }
                        },
                    }
                    proof {
                        let done0 = done;
                        done = done.push(e);
                        assert(done.drop_last() =~= done0);
                        assert forall|k: int| 0 <= k < done.len() implies (#[trigger] done[k]).0 < pi || (done[k].0 == pi && done[k].1 <= ci) by {
                            if k < done0.len() {
                                assert(done[k] == done0[k]);
                            }
                        }
                        assert(placed_of_card(pi as int, ci as int, pc.triggers@.subrange(0, t as int + 1))
                            =~= placed_of_card(pi as int, ci as int, pc.triggers@.subrange(0, t as int)).push(e));
                        match ans {
                            Some(_) => {
                                assert(r@.drop_last() =~= before_r);
                            },
                            None => {},
                        }
                    }
                    t = t + 1;
                }
                proof {
                    assert(trig@.len() == pc.triggers@.len());
                    assert(pc.triggers@.subrange(0, pc.triggers@.len() as int) =~= pc.triggers@);
                    assert(placed_of_cards(pi as int, pre[pi as int].cards_in_play@.subrange(0, ci as int + 1))
                        =~= placed_of_cards(pi as int, pre[pi as int].cards_in_play@.subrange(0, ci as int)) + placed_of_card(pi as int, ci as int, pc.triggers@));
                    assert(done =~= base + placed_of_cards(pi as int, pre[pi as int].cards_in_play@.subrange(0, ci as int + 1)));
                    assert forall|k: int| 0 <= k < done.len() implies (#[trigger] done[k]).0 < pi || (done[k].0 == pi && done[k].1 < ci + 1) by {
                        assert(done[k].0 < pi || (done[k].0 == pi && done[k].1 <= ci));
                    }
                }
                ci = ci + 1;
            }
            proof {
                assert(pre[pi as int].cards_in_play@.subrange(0, n as int) =~= pre[pi as int].cards_in_play@);
                assert(done =~= placed_triggers(pre.subrange(0, pi as int + 1)));
                assert forall|k: int| 0 <= k < done.len() implies (#[trigger] done[k]).0 < pi + 1 by {
                    assert(done[k].0 < pi || (done[k].0 == pi && done[k].1 < n));
                }
            }
            pi = pi + 1;
        }
        proof {
            assert(pre.subrange(0, pre.len() as int) =~= pre);
            if !removed {
                assert(at_spec is None);
            }
        }
        Ok(r)
    }
}

/// `g1` and `r` follow from `g0` when the card is exiled: when it has an
/// owner, it is taken off the battlefield into its owner's exile and the
/// actions the table answers with are given back, with the exile noted
/// among the turn's messages; or, when an answer's exiled card can no longer
/// be found, the exile is done, nothing is noted and it fails. A card without
/// an owner changes nothing.
pub open spec fn exiled(g0: Game, g1: Game, card: Card, r: Result<Vec<GameAction>, String>) -> bool {
    &&& card.owner is None ==> g1 == g0 && (r matches Ok(v) && v@.len() == 0)
    &&& card.owner is Some ==> {
        &&& removal_done(g0.players@, g1.players@, removal_at(g0.players@, card.id@), DeckPile::Exiled)
        &&& match r {
            Ok(v) => {
                &&& removal_trace(placed_triggers(g0.players@), v@, g0.players@, g1.players@,
                    removal_at(g0.players@, card.id@), card.id@, DeckPile::Exiled)
                &&& g1.turn_messages@ == g0.turn_messages@.push(g1.turn_messages@.last())
                &&& g1.turn_messages@.last()@ == card.name@ + " was exiled."@
                &&& g1 == (Game { players: g1.players, turn_messages: g1.turn_messages, ..g0 })
            },
            Err(e) => {
                &&& e@ == "Unable to find frontend target for card "@ + card.name@
                &&& exists|pi: int, ci: int, t: int| #[trigger] answer_fails(g0.players@, g1.players@,
                    removal_at(g0.players@, card.id@), card.id@, DeckPile::Exiled, pi, ci, t)
                &&& g1 == (Game { players: g1.players, ..g0 })
            },
        }
    }
}

/// `g1` is `g0` after destroying the card with the given id: when it has an
/// owner, it is taken off the battlefield to its owner's graveyard and `v`
/// holds the actions the table answers with; otherwise nothing happens.
pub open spec fn destroyed(g0: Game, g1: Game, owned: bool, id: Seq<char>, v: Seq<GameAction>) -> bool {
    if !owned {
        g1 == g0 && v.len() == 0
    } else {
        &&& removal_done(g0.players@, g1.players@, removal_at(g0.players@, id), DeckPile::Graveyard)
        &&& g1 == (Game { players: g1.players, ..g0 })
        &&& removal_trace(placed_triggers(g0.players@), v, g0.players@, g1.players@, removal_at(g0.players@, id), id, DeckPile::Graveyard)
    }
}

/// The creatures among the cards whose toughness is at most zero, in order.
pub open spec fn dead_in(cards: Seq<Card>) -> Seq<Card>
    decreases cards.len(),
{
    if cards.len() == 0 {
        Seq::empty()
    } else {
        let r = dead_in(cards.drop_last());
        let c = cards.last();
        if c.card_type == CardType::Creature && c.stats.total(StatType::Toughness) <= 0 { r.push(c) } else { r }
    }
}

/// The creatures in play whose toughness is at most zero, seat by seat and
/// card by card.
pub open spec fn dead_creatures(players: Seq<Player>) -> Seq<Card>
    decreases players.len(),
{
    if players.len() == 0 {
        Seq::empty()
    } else {
        dead_creatures(players.drop_last()) + dead_in(players.last().cards_in_play@)
    }
}

/// The lists one after the other.
pub open spec fn flat(vs: Seq<Seq<GameAction>>) -> Seq<GameAction>
    decreases vs.len(),
{
    if vs.len() == 0 { Seq::empty() } else { flat(vs.drop_last()) + vs.last() }
}

/// `gs` runs from game to game destroying the cards one by one, the `k`-th
/// destruction answered with `vs[k]`.
pub open spec fn destroyed_in_turn(gs: Seq<Game>, vs: Seq<Seq<GameAction>>, cs: Seq<Card>) -> bool {
    &&& gs.len() == cs.len() + 1
    &&& vs.len() == cs.len()
    &&& forall|k: int| 0 <= k < cs.len() ==> destroyed(#[trigger] gs[k], gs[k + 1], cs[k].owner is Some, cs[k].id@, vs[k])
}

/// The toughness of every creature in play can be added up in an `i16`.
pub open spec fn toughness_countable(players: Seq<Player>) -> bool {
    forall|pi: int, ci: int| 0 <= pi < players.len() && 0 <= ci < players[pi].cards_in_play@.len()
        && (#[trigger] players[pi].cards_in_play@[ci]).card_type == CardType::Creature ==> {
        let c = players[pi].cards_in_play@[ci];
        &&& c.stats.stats@.len() < 0x1_0000_0000
        &&& i16::MIN <= c.stats.total(StatType::Toughness) <= i16::MAX
    }
}

/// Taking a card off the battlefield wakes no answer for the opponents only
/// where none was before.
pub proof fn lemma_removal_keeps_no_opponent_answers(pre: Seq<Player>, post: Seq<Player>, at: Option<(int, int)>, pile: DeckPile)
    requires
        removal_done(pre, post, at, pile),
        no_opponent_answers(pre, pile),
        at matches Some(p) ==> 0 <= p.0 < pre.len() && 0 <= p.1 < pre[p.0].cards_in_play@.len(),
    ensures
        no_opponent_answers(post, pile),
{
    if let Some(p) = at {
        assert forall|pi: int, ci: int, t: int|
            0 <= pi < post.len() && 0 <= ci < post[pi].cards_in_play@.len()
                && 0 <= t < post[pi].cards_in_play@[ci].triggers@.len()
            implies not_for_opponents(#[trigger] post[pi].cards_in_play@[ci].triggers@[t].trigger_type, pile) by {
            if pi == p.0 {
                let oc = if ci < p.1 { ci } else { ci + 1 };
                assert(post[pi].cards_in_play@[ci] == pre[pi].cards_in_play@[oc]);
                assert(not_for_opponents(pre[pi].cards_in_play@[oc].triggers@[t].trigger_type, pile));
            } else {
                assert(post[pi] == pre[pi]);
                assert(not_for_opponents(pre[pi].cards_in_play@[ci].triggers@[t].trigger_type, pile));
            }
        }
    }
}

impl Game {
    /// The creatures in play whose toughness is at most zero, as copies,
    /// seat by seat and card by card.
    fn find_dead_creatures(&self) -> (r: Vec<Card>)
        requires
            toughness_countable(self.players@),
        ensures
            same_cards(r@, dead_creatures(self.players@)),
    {
        let mut r: Vec<Card> = Vec::new();
        let mut pi: usize = 0;
        while pi < self.players.len()
            invariant
                pi <= self.players@.len(),
                toughness_countable(self.players@),
                same_cards(r@, dead_creatures(self.players@.subrange(0, pi as int))),
            decreases self.players@.len() - pi,
        {
            let cards = &self.players[pi].cards_in_play;
            let ghost base = r@;
            let mut ci: usize = 0;
            while ci < cards.len()
                invariant
                    pi < self.players@.len(),
                    *cards == self.players@[pi as int].cards_in_play,
                    ci <= cards@.len(),
                    toughness_countable(self.players@),
                    same_cards(base, dead_creatures(self.players@.subrange(0, pi as int))),
                    r@.len() == base.len() + dead_in(cards@.subrange(0, ci as int)).len(),
                    r@.subrange(0, base.len() as int) == base,
                    same_cards(r@.subrange(base.len() as int, r@.len() as int), dead_in(cards@.subrange(0, ci as int))),
                decreases cards@.len() - ci,
            {
                let c = &cards[ci];
                proof {
                    assert(cards@.subrange(0, ci as int + 1).drop_last() =~= cards@.subrange(0, ci as int));
                    assert(cards@.subrange(0, ci as int + 1).last() == *c);
                }
                if c.card_type == CardType::Creature && c.stats.get_stat_value(StatType::Toughness) <= 0 {
                    let ghost before = r@;
                    r.push(c.copy());
                    proof {
                        assert(r@.subrange(0, base.len() as int) =~= before.subrange(0, base.len() as int));
                        let tail = r@.subrange(base.len() as int, r@.len() as int);
                        let want = dead_in(cards@.subrange(0, ci as int + 1));
                        assert(tail =~= before.subrange(base.len() as int, before.len() as int).push(r@.last()));
                        assert forall|j: int| 0 <= j < tail.len() implies crate::card::same_card(#[trigger] tail[j], want[j]) by {
                            if j < tail.len() - 1 {
                                assert(tail[j] == before.subrange(base.len() as int, before.len() as int)[j]);
                            }
                        }
                    }
                } else {
                    proof {
                        assert(dead_in(cards@.subrange(0, ci as int + 1)) == dead_in(cards@.subrange(0, ci as int)));
                    }
                }
                ci = ci + 1;
            }
            proof {
                assert(cards@.subrange(0, cards@.len() as int) =~= cards@);
                let ps = self.players@.subrange(0, pi as int + 1);
                assert(ps.drop_last() =~= self.players@.subrange(0, pi as int));
                assert(ps.last() == self.players@[pi as int]);
                let want = dead_creatures(ps);
                assert(want == dead_creatures(self.players@.subrange(0, pi as int)) + dead_in(cards@));
                assert(r@ =~= r@.subrange(0, base.len() as int) + r@.subrange(base.len() as int, r@.len() as int));
                assert forall|j: int| 0 <= j < r@.len() implies crate::card::same_card(#[trigger] r@[j], want[j]) by {
                    if j < base.len() {
                        assert(r@[j] == base[j]);
                    } else {
                        assert(r@[j] == r@.subrange(base.len() as int, r@.len() as int)[j - base.len()]);
                    }
                }
            }
            pi = pi + 1;
        }
        proof {
            assert(self.players@.subrange(0, self.players@.len() as int) =~= self.players@);
        }
        r
    }

    /// Destroys, one after the other, the creatures in play whose toughness
    /// is at most zero, found seat by seat and card by card before any is
    /// destroyed, and gives back the actions the table answers with, in
    /// order.
    pub fn destroy_dead_creatures(&mut self) -> (r: Vec<GameAction>)
        requires
            toughness_countable(old(self).players@),
            no_opponent_answers(old(self).players@, DeckPile::Graveyard),
        ensures
            exists|gs: Seq<Game>, vs: Seq<Seq<GameAction>>| {
                &&& #[trigger] destroyed_in_turn(gs, vs, dead_creatures(old(self).players@))
                &&& gs[0] == *old(self)
                &&& gs.last() == *final(self)
                &&& r@ == flat(vs)
            },
    {
        let dead = self.find_dead_creatures();
        let ghost cs = dead_creatures(old(self).players@);
        let ghost mut gs: Seq<Game> = seq![*self];
        let ghost mut vs: Seq<Seq<GameAction>> = Seq::empty();
        let mut r: Vec<GameAction> = Vec::new();
        let mut k: usize = 0;
        while k < dead.len()
            invariant
                k <= dead@.len(),
                same_cards(dead@, cs),
                gs.len() == k + 1,
                vs.len() == k,
                gs[0] == *old(self),
                gs.last() == *self,
                forall|j: int| 0 <= j < k ==> destroyed(#[trigger] gs[j], gs[j + 1], cs[j].owner is Some, cs[j].id@, vs[j]),
                r@ == flat(vs),
                no_opponent_answers(self.players@, DeckPile::Graveyard),
            decreases dead@.len() - k,
        {
            let ghost g0 = *self;
            let ghost mut vs0: Seq<Seq<GameAction>> = vs;
            proof {
                assert(crate::card::same_card(dead@[k as int], cs[k as int]));
            }
            let v = match self.destroy_card(&dead[k]) {
                Ok(v) => v,
                Err(_) => Vec::new(),
            };
            proof {
                if dead@[k as int].owner is Some {
                    let id = dead@[k as int].id@;
                    if !nowhere_in_play(g0.players@, id) {
                        let (pi, ci) = choose|pi: int, ci: int| #[trigger] in_play_at(g0.players@, id, pi, ci);
                        lemma_first_in_play_exists(g0.players@, id, pi, ci);
                    }
                    lemma_removal_keeps_no_opponent_answers(g0.players@, self.players@, removal_at(g0.players@, dead@[k as int].id@), DeckPile::Graveyard);
                }
                let gs0 = gs;
                gs = gs.push(*self);
                vs0 = vs;
                vs = vs.push(v@);
                assert forall|j: int| 0 <= j < k + 1 implies destroyed(#[trigger] gs[j], gs[j + 1], cs[j].owner is Some, cs[j].id@, vs[j]) by {
                    if j < k {
                        assert(gs[j] == gs0[j]);
                        assert(gs[j + 1] == gs0[j + 1]);
                    }
                }
                assert(vs.drop_last() =~= vs0);
            }
            let ghost r0 = r@;
            let ghost vv = v@;
            let mut v = v;
            r.append(&mut v);
            proof {
                assert(vs.last() == vv);
                assert(r@ =~= r0 + vv);
                assert(r@ =~= flat(vs));
            }
            k = k + 1;
        }
        proof {
            assert(destroyed_in_turn(gs, vs, cs));
        }
        r
    }
}

impl Game {
    /// Destroys the card: when it has an owner, takes it off the battlefield
    /// to its owner's graveyard and returns the actions the table answers
    /// with: the card's own triggers for its destruction, and the triggers of
    /// the other cards in play for another card's destruction, each aimed at
    /// the answering card.
    pub fn destroy_card(&mut self, card: &Card) -> (r: Result<Vec<GameAction>, String>)
        requires
            card.owner is Some ==> no_opponent_answers(old(self).players@, DeckPile::Graveyard),
        ensures
            r matches Ok(v) && destroyed(*old(self), *final(self), card.owner is Some, card.id@, v@),
    {
        if card.owner.is_none() {
            return Ok(Vec::new());
        }
        self.walk_removal(card, DeckPile::Graveyard)
    }

    /// Exiles the card: when it has an owner, takes it off the battlefield
    /// into its owner's exile, collects the actions the table answers with,
    /// each of another card's aimed at where the exiled card lies when the
    /// walk over the table reaches the answering card, and notes the exile
    /// among the turn's messages. Fails, with the exile done and nothing
    /// noted, when an answer's exiled card can no longer be found.
    pub fn exile_card(&mut self, card: &Card) -> (r: Result<Vec<GameAction>, String>)
        requires
            card.owner is Some ==> no_opponent_answers(old(self).players@, DeckPile::Exiled),
        ensures
            exiled(*old(self), *final(self), *card, r),
    {
        if card.owner.is_none() {
            return Ok(Vec::new());
        }
        let r = self.walk_removal(card, DeckPile::Exiled);
        match r {
            Ok(v) => {
                let mut message = card.name.clone();
                message.append(" was exiled.");
                self.add_turn_message(message);
                Ok(v)
            },
            Err(e) => Err(e),
        }
    }
}

} // verus!

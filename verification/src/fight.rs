//! Resolving the declared combat at the table: the damage itself, and the
//! actions that the cards that fought answer it with.
use vstd::prelude::*;
use crate::action::{ActionTriggerType, CardAction, CardActionTrigger, CardActionWrapper, GameAction, LifeLinkAction, same_game_actions, same_game_action, same_action};
use crate::card::Card;
use crate::combat::{Combat, combat_frame, combat_outcome, combat_ready, hits_recorded};
use crate::game::Game;
use crate::player::Player;

verus! {

/// The ids of the cards declared in the combat: every blocker, every
/// blocked attacker and every attacker.
pub open spec fn fighters(c: Combat) -> Set<Seq<char>> {
    Set::new(|id: Seq<char>|
        (exists|j: int| 0 <= j < c.blockers@.len() && (#[trigger] c.blockers@[j]).0@ == id)
        || (exists|j: int| 0 <= j < c.blockers@.len() && (#[trigger] c.blockers@[j]).1@ == id)
        || (exists|j: int| 0 <= j < c.attackers@.len() && (#[trigger] c.attackers@[j]).0@ == id))
}

/// The life-link action of a card, aimed at nothing.
pub open spec fn lifelink_of(c: Card) -> GameAction {
    GameAction::Card(CardActionWrapper {
        card: c.id,
        action: CardAction::LifeLink(LifeLinkAction {}),
        target: None,
        ability_id: None,
    })
}

/// The actions of a card's damage-applied triggers, in order, aimed at nothing.
pub open spec fn damage_answers(c: Card, ts: Seq<CardActionTrigger>) -> Seq<GameAction>
    decreases ts.len(),
{
    if ts.len() == 0 {
        Seq::empty()
    } else {
        let rest = damage_answers(c, ts.drop_last());
        if ts.last().trigger_type == ActionTriggerType::DamageApplied {
            rest.push(GameAction::Card(CardActionWrapper {
                card: c.id,
                action: ts.last().action,
                target: None,
                ability_id: Some(ts.last().id),
            }))
        } else {
            rest
        }
    }
}

/// What a card answers combat with: when it fought, its life link, then,
/// when it has an owner, its damage-applied triggers.
pub open spec fn card_answers(c: Card, fought: Set<Seq<char>>) -> Seq<GameAction> {
    if fought.contains(c.id@) {
        seq![lifelink_of(c)] + if c.owner is Some { damage_answers(c, c.triggers@) } else { Seq::empty() }
    } else {
        Seq::empty()
    }
}

/// What the cards of a battlefield answer combat with, card by card.
pub open spec fn cards_answers(cards: Seq<Card>, fought: Set<Seq<char>>) -> Seq<GameAction>
    decreases cards.len(),
{
    if cards.len() == 0 {
        Seq::empty()
    } else {
        cards_answers(cards.drop_last(), fought) + card_answers(cards.last(), fought)
    }
}

/// What the table answers combat with, seat by seat.
pub open spec fn table_answers(players: Seq<Player>, fought: Set<Seq<char>>) -> Seq<GameAction>
    decreases players.len(),
{
    if players.len() == 0 {
        Seq::empty()
    } else {
        table_answers(players.drop_last(), fought) + cards_answers(players.last().cards_in_play@, fought)
    }
}

/// Whether some entry of the list carries the id.
fn has_id(ids: &Vec<String>, id: &String) -> (b: bool)
    ensures
        b == exists|k: int| 0 <= k < ids@.len() && (#[trigger] ids@[k])@ == id@,
{
    let mut k: usize = 0;
    while k < ids.len()
        invariant
            k <= ids@.len(),
            forall|j: int| 0 <= j < k ==> (#[trigger] ids@[j])@ != id@,
        decreases ids@.len() - k,
    {
        if ids[k] == *id {
            return true;
        }
        k = k + 1;
    }
    false
}

/// The ids of the cards declared in the combat.
fn fighter_ids(c: &Combat) -> (ids: Vec<String>)
    ensures
        forall|id: Seq<char>| fighters(*c).contains(id) <==> exists|k: int| 0 <= k < ids@.len() && (#[trigger] ids@[k])@ == id,
{
    let mut ids: Vec<String> = Vec::new();
    let mut j: usize = 0;
    while j < c.blockers.len()
        invariant
            j <= c.blockers@.len(),
            ids@.len() == 2 * j,
            forall|k: int| 0 <= k < j ==> (#[trigger] ids@[2 * k])@ == c.blockers@[k].0@ && ids@[2 * k + 1]@ == c.blockers@[k].1@,
        decreases c.blockers@.len() - j,
    {
        ids.push(c.blockers[j].0.clone());
        ids.push(c.blockers[j].1.clone());
        j = j + 1;
    }
    let mut a: usize = 0;
    while a < c.attackers.len()
        invariant
            a <= c.attackers@.len(),
            ids@.len() == 2 * c.blockers@.len() + a,
            forall|k: int| 0 <= k < c.blockers@.len() ==> (#[trigger] ids@[2 * k])@ == c.blockers@[k].0@ && ids@[2 * k + 1]@ == c.blockers@[k].1@,
            forall|k: int| 0 <= k < a ==> (#[trigger] ids@[2 * c.blockers@.len() + k])@ == c.attackers@[k].0@,
        decreases c.attackers@.len() - a,
    {
        ids.push(c.attackers[a].0.clone());
        a = a + 1;
    }
    proof {
        let nb = c.blockers@.len() as int;
        assert forall|id: Seq<char>| fighters(*c).contains(id) <==> exists|k: int| 0 <= k < ids@.len() && (#[trigger] ids@[k])@ == id by {
            if fighters(*c).contains(id) {
                if exists|j: int| 0 <= j < c.blockers@.len() && (#[trigger] c.blockers@[j]).0@ == id {
                    let j = choose|j: int| 0 <= j < c.blockers@.len() && (#[trigger] c.blockers@[j]).0@ == id;
                    assert(ids@[2 * j]@ == id);
                } else if exists|j: int| 0 <= j < c.blockers@.len() && (#[trigger] c.blockers@[j]).1@ == id {
                    let j = choose|j: int| 0 <= j < c.blockers@.len() && (#[trigger] c.blockers@[j]).1@ == id;
                    assert(ids@[2 * j]@ == c.blockers@[j].0@);
                    assert(ids@[2 * j + 1]@ == id);
                } else {
                    let j = choose|j: int| 0 <= j < c.attackers@.len() && (#[trigger] c.attackers@[j]).0@ == id;
                    assert(ids@[2 * nb + j]@ == id);
                }
            }
            if exists|k: int| 0 <= k < ids@.len() && (#[trigger] ids@[k])@ == id {
                let k = choose|k: int| 0 <= k < ids@.len() && (#[trigger] ids@[k])@ == id;
                if k < 2 * nb {
                    let j = k / 2;
                    assert(ids@[2 * j]@ == c.blockers@[j].0@);
                    if k == 2 * j {
                        assert(c.blockers@[j].0@ == id);
                    } else {
                        assert(k == 2 * j + 1);
                        assert(c.blockers@[j].1@ == id);
                    }
                } else {
                    let j = k - 2 * nb;
                    assert(ids@[2 * nb + j]@ == c.attackers@[j].0@);
                    assert(c.attackers@[j].0@ == id);
                }
            }
        }
    }
    ids
}

impl Game {
    /// Resolves the declared combat: the damage is dealt as `Combat::resolve_combat`
    /// deals it, and the combat is forgotten. Gives back the actions the
    /// cards that fought answer with, seat by seat and card by card on the
    /// table after the damage, to be resolved before anything else, and the
    /// ids of the cards the fight destroyed, to be destroyed after them.
    pub fn resolve_combat(&mut self) -> (r: (Vec<GameAction>, Vec<String>))
        requires
            combat_ready(old(self).combat, old(self).players@),
            combat_outcome(old(self).combat, old(self).players@).4,
        ensures
            combat_frame(old(self).players@, final(self).players@, combat_outcome(old(self).combat, old(self).players@)),
            hits_recorded(old(self).players@, final(self).players@, combat_outcome(old(self).combat, old(self).players@).3),
            final(self).combat.attackers@.len() == 0,
            final(self).combat.blockers@.len() == 0,
            *final(self) == (Game { players: final(self).players, combat: final(self).combat, ..*old(self) }),
            same_game_actions(r.0@, table_answers(final(self).players@, fighters(old(self).combat))),
            r.1@.len() == combat_outcome(old(self).combat, old(self).players@).2.len(),
            forall|k: int| 0 <= k < r.1@.len() ==> (#[trigger] r.1@[k])@ == combat_outcome(old(self).combat, old(self).players@).2[k],
    {
        let ids = fighter_ids(&self.combat);
        let ghost fought = fighters(self.combat);
        let destroyed = self.combat.resolve_combat(&mut self.players);
        let mut actions: Vec<GameAction> = Vec::new();
        let mut pi: usize = 0;
        while pi < self.players.len()
            invariant
                forall|id: Seq<char>| fought.contains(id) <==> exists|k: int| 0 <= k < ids@.len() && (#[trigger] ids@[k])@ == id,
                pi <= self.players@.len(),
                same_game_actions(actions@, table_answers(self.players@.subrange(0, pi as int), fought)),
            decreases self.players@.len() - pi,
        {
            let cards = &self.players[pi].cards_in_play;
            let ghost base = actions@;
            proof {
                assert(self.players@.subrange(0, pi as int + 1).drop_last() =~= self.players@.subrange(0, pi as int));
            }
            let mut ci: usize = 0;
            while ci < cards.len()
                invariant
                    forall|id: Seq<char>| fought.contains(id) <==> exists|k: int| 0 <= k < ids@.len() && (#[trigger] ids@[k])@ == id,
                    pi < self.players@.len(),
                    *cards == self.players@[pi as int].cards_in_play,
                    ci <= cards@.len(),
                    same_game_actions(actions@, table_answers(self.players@.subrange(0, pi as int), fought) + cards_answers(cards@.subrange(0, ci as int), fought)),
                decreases cards@.len() - ci,
            {
                let card = &cards[ci];
                let ghost want0 = table_answers(self.players@.subrange(0, pi as int), fought) + cards_answers(cards@.subrange(0, ci as int), fought);
                proof {
                    assert(cards@.subrange(0, ci as int + 1).drop_last() =~= cards@.subrange(0, ci as int));
                }
                if has_id(&ids, &card.id) {
                    let ghost before = actions@;
                    actions.push(GameAction::Card(CardActionWrapper {
                        card: card.id.clone(),
                        action: CardAction::LifeLink(LifeLinkAction {}),
                        target: None,
                        ability_id: None,
                    }));
                    proof {
                        assert forall|k: int| 0 <= k < actions@.len() implies same_game_action(#[trigger] actions@[k], (want0 + seq![lifelink_of(*card)])[k]) by {
                            if k < before.len() {
                                assert(actions@[k] == before[k]);
                            }
                        }
                    }
                    let ghost want1 = want0 + seq![lifelink_of(*card)];
                    proof {
                        assert(damage_answers(*card, card.triggers@.subrange(0, 0)) =~= Seq::<GameAction>::empty());
                        assert(want1 + damage_answers(*card, card.triggers@.subrange(0, 0)) =~= want1);
                    }
                    if card.owner.is_some() {
                        let mut t: usize = 0;
                        while t < card.triggers.len()
                            invariant
                                t <= card.triggers@.len(),
                                same_game_actions(actions@, want1 + damage_answers(*card, card.triggers@.subrange(0, t as int))),
                            decreases card.triggers@.len() - t,
                        {
                            let tr = &card.triggers[t];
                            let ghost b2 = actions@;
                            proof {
                                assert(card.triggers@.subrange(0, t as int + 1).drop_last() =~= card.triggers@.subrange(0, t as int));
                            }
                            let is_damage = match tr.trigger_type {
                                ActionTriggerType::DamageApplied => true,
                                _ => false,
                            };
                            if is_damage {
                                actions.push(GameAction::Card(CardActionWrapper {
                                    card: card.id.clone(),
                                    action: tr.action.copy(),
                                    target: None,
                                    ability_id: Some(tr.id.clone()),
                                }));
                                proof {
                                    let w = want1 + damage_answers(*card, card.triggers@.subrange(0, t as int + 1));
                                                                        assert forall|k: int| 0 <= k < actions@.len() implies same_game_action(#[trigger] actions@[k], w[k]) by {
                                        if k < b2.len() {
                                            assert(actions@[k] == b2[k]);
                                            assert(w[k] == (want1 + damage_answers(*card, card.triggers@.subrange(0, t as int)))[k]);
                                        }
                                    }
                                }
                            } else {
                                proof {
                                    assert(want1 + damage_answers(*card, card.triggers@.subrange(0, t as int + 1))
                                        =~= want1 + damage_answers(*card, card.triggers@.subrange(0, t as int)));
                                }
                            }
                            t = t + 1;
                        }
                        proof {
                            assert(card.triggers@.subrange(0, card.triggers@.len() as int) =~= card.triggers@);
                        }
                    }
                    proof {
                        assert(fought.contains(card.id@));
                        let w = want0 + card_answers(*card, fought);
                        if card.owner is Some {
                            assert(w =~= want1 + damage_answers(*card, card.triggers@));
                        } else {
                            assert(w =~= want1);
                        }
                    }
                } else {
                    proof {
                        assert(!fought.contains(card.id@));
                        assert(want0 + card_answers(*card, fought) =~= want0);
                    }
                }
                proof {
                    assert(cards_answers(cards@.subrange(0, ci as int + 1), fought)
                        =~= cards_answers(cards@.subrange(0, ci as int), fought) + card_answers(*card, fought));
                    assert(want0 + card_answers(*card, fought) =~= table_answers(self.players@.subrange(0, pi as int), fought)
                        + cards_answers(cards@.subrange(0, ci as int + 1), fought));
                }
                ci = ci + 1;
            }
            proof {
                assert(cards@.subrange(0, cards@.len() as int) =~= cards@);
                assert(table_answers(self.players@.subrange(0, pi as int + 1), fought)
                    =~= table_answers(self.players@.subrange(0, pi as int), fought) + cards_answers(cards@, fought));
            }
            pi = pi + 1;
        }
        proof {
            assert(self.players@.subrange(0, self.players@.len() as int) =~= self.players@);
        }
        (actions, destroyed)
    }
}

} // verus!

//! Turning what a client names into what the rules work on: a card, or the
//! target of an effect; and the actions a card's own triggers answer being
//! attached or destroyed with.
use vstd::prelude::*;
use crate::action::{ActionTriggerType, CardActionTrigger, CardActionWrapper, GameAction};
use crate::card::{Card, same_card};
use crate::effects::EffectTarget;
use crate::execute::{target_card, target_ok, target_seat};
use crate::game::{FrontendCardTarget, FrontendTarget, Game, holds_card, locates};
use crate::table::first_named;
use crate::turn::Turn;

verus! {

/// The actions of the card's triggers of the given kind, in order, each
/// aimed at `target` under the trigger's id.
pub open spec fn answers_of(card: Card, ts: Seq<CardActionTrigger>, kind: ActionTriggerType, target: Option<FrontendTarget>) -> Seq<GameAction>
    decreases ts.len(),
{
    if ts.len() == 0 {
        Seq::empty()
    } else {
        let rest = answers_of(card, ts.drop_last(), kind, target);
        let t = ts.last();
        if t.trigger_type == kind {
            rest.push(GameAction::Card(CardActionWrapper { card: card.id, action: t.action, target, ability_id: Some(t.id) }))
        } else {
            rest
        }
    }
}

/// Locating a card and fetching it back gives the card: when no two players
/// share a name, the position `frontend_target_from_card` gives for an id
/// names, as `card_from_frontend_card_target` reads it, a card with that id.
pub proof fn law_locate_then_fetch(players: Seq<crate::player::Player>, id: Seq<char>, t: FrontendCardTarget)
    requires
        locates(players, id, t),
        forall|i: int, j: int| 0 <= i < j < players.len() ==> (#[trigger] players[i]).name@ != (#[trigger] players[j]).name@,
        forall|i: int| 0 <= i < players.len() ==> crate::game::pile_of(#[trigger] players[i], t.pile).len() <= i32::MAX,
    ensures
        target_ok(players, t),
        target_card(players, t).id@ == id,
{
    let (pi, k) = choose|pi: int, k: int| {
        &&& 0 <= pi < players.len()
        &&& t.player_id@ == players[pi].name@
        &&& 0 <= k < crate::game::pile_of(players[pi], t.pile).len()
        &&& t.card_index == k as i32
        &&& crate::game::pile_of(players[pi], t.pile)[k].id@ == id
        &&& forall|pj: int| 0 <= pj < pi ==> !holds_card(#[trigger] players[pj], id)
        &&& crate::game::earlier_piles_lack(players[pi], id, t.pile)
        &&& forall|j: int| 0 <= j < k ==> (#[trigger] crate::game::pile_of(players[pi], t.pile)[j]).id@ != id
    };
    assert forall|j: int| 0 <= j < pi implies (#[trigger] players[j]).name@ != t.player_id@ by {
        assert(players[j].name@ != players[pi].name@);
    }
    assert(first_named(players, t.player_id@, pi));
    let q = target_seat(players, t);
    crate::effects::lemma_first_named_unique(players, t.player_id@, pi, q);
    assert(crate::game::pile_of(players[pi], t.pile).len() <= i32::MAX);
    assert(t.card_index as int == k);
}

impl Card {
    /// The actions of the card's triggers of the given kind, aimed at the target.
    fn answers(&self, kind: ActionTriggerType, target: Option<FrontendTarget>) -> (r: Vec<GameAction>)
        requires
            kind == ActionTriggerType::Attached || kind == ActionTriggerType::CardDestroyed,
        ensures
            crate::action::same_game_actions(r@, answers_of(*self, self.triggers@, kind, target)),
    {
        let mut r: Vec<GameAction> = Vec::new();
        let mut i: usize = 0;
        while i < self.triggers.len()
            invariant
                i <= self.triggers@.len(),
                kind == ActionTriggerType::Attached || kind == ActionTriggerType::CardDestroyed,
                crate::action::same_game_actions(r@, answers_of(*self, self.triggers@.subrange(0, i as int), kind, target)),
            decreases self.triggers@.len() - i,
        {
            let t = &self.triggers[i];
            proof {
                assert(self.triggers@.subrange(0, i as int + 1).drop_last() =~= self.triggers@.subrange(0, i as int));
                assert(self.triggers@.subrange(0, i as int + 1).last() == *t);
            }
            let hit = match (&t.trigger_type, &kind) {
                (ActionTriggerType::Attached, ActionTriggerType::Attached) => true,
                (ActionTriggerType::CardDestroyed, ActionTriggerType::CardDestroyed) => true,
                _ => false,
            };
            if hit {
                let ghost before = r@;
                r.push(GameAction::Card(CardActionWrapper {
                    card: self.id.clone(),
                    action: t.action.copy(),
                    target: crate::game::copy_opt_target(&target),
                    ability_id: Some(t.id.clone()),
                }));
                proof {
                    let want = answers_of(*self, self.triggers@.subrange(0, i as int + 1), kind, target);
                    assert(want == answers_of(*self, self.triggers@.subrange(0, i as int), kind, target).push(want.last()));
                    assert forall|j: int| 0 <= j < r@.len() implies crate::action::same_game_action(#[trigger] r@[j], want[j]) by {
                        if j < before.len() {
                            assert(r@[j] == before[j]);
                        }
                    }
                }
            } else {
                proof {
                    assert(t.trigger_type != kind);
                }
            }
            i = i + 1;
        }
        proof {
            assert(self.triggers@.subrange(0, self.triggers@.len() as int) =~= self.triggers@);
        }
        r
    }

    /// The actions the card's attach triggers answer its being attached
    /// with, each aimed at the target under the trigger's id.
    pub fn collect_attach_actions(&self, target: Option<FrontendTarget>) -> (r: Vec<GameAction>)
        ensures
            crate::action::same_game_actions(r@, answers_of(*self, self.triggers@, ActionTriggerType::Attached, target)),
    {
        self.answers(ActionTriggerType::Attached, target)
    }

    /// The actions the card's own triggers answer its destruction with, each
    /// under the trigger's id and aimed at nothing; the turn plays no part.
    pub fn collect_card_destroyed_actions(&self, turn: &Turn) -> (r: Vec<GameAction>)
        ensures
            crate::action::same_game_actions(r@, answers_of(*self, self.triggers@, ActionTriggerType::CardDestroyed, None)),
    {
        self.answers(ActionTriggerType::CardDestroyed, None)
    }
}

impl Game {
    /// A copy of the card a target names; the target must name a card.
    pub fn card_from_frontend_target(&self, target: &FrontendTarget) -> (c: Card)
        requires
            *target matches FrontendTarget::Card(t) && target_ok(self.players@, t),
        ensures
            *target matches FrontendTarget::Card(t) && same_card(c, target_card(self.players@, t)),
    {
        match target {
            FrontendTarget::Card(t) => {
                proof {
                    let q = target_seat(self.players@, *t);
                    assert(first_named(self.players@, t.player_id@, q));
                }
                self.card_from_frontend_card_target(t)
            },
            FrontendTarget::Player(_) => {
                proof {
                    assert(false);
                }
                crate::card::CardBuilder::new().build()
            },
        }
    }

    /// What an effect aimed at the client's target is aimed at: the card it
    /// names, by id, or the player it names, by name.
    pub fn frontend_card_to_effect_target(&self, target: &FrontendTarget) -> (e: EffectTarget)
        requires
            match *target {
                FrontendTarget::Card(t) => target_ok(self.players@, t),
                FrontendTarget::Player(n) => exists|q: int| first_named(self.players@, n@, q),
            },
        ensures
            match *target {
                FrontendTarget::Card(t) => e matches EffectTarget::Card(id) && id@ == target_card(self.players@, t).id@,
                FrontendTarget::Player(n) => e matches EffectTarget::Player(m) && m@ == n@,
            },
    {
        match target {
            FrontendTarget::Card(t) => {
                let c = self.card_from_frontend_target(target);
                EffectTarget::Card(c.id)
            },
            FrontendTarget::Player(_) => {
                let q = match self.player_from_frontend_target(target) {
                    Ok(q) => q,
                    Err(_) => {
                        proof {
                            let n = target->Player_0;
                            let q0 = choose|q: int| first_named(self.players@, n@, q);
                            assert(self.players@[q0].name@ == n@);
                        }
                        0
                    },
                };
                EffectTarget::Player(self.players[q].name.clone())
            },
        }
    }

    /// What an effect aimed at the card is aimed at: the card at its first
    /// place at the table, by id.
    pub fn card_to_effect_target(&self, card: &Card) -> (e: EffectTarget)
        requires
            exists|pi: int| 0 <= pi < self.players@.len() && holds_card(#[trigger] self.players@[pi], card.id@),
            forall|t: FrontendCardTarget| locates(self.players@, card.id@, t) ==> target_ok(self.players@, t),
        ensures
            exists|t: FrontendCardTarget| #[trigger] locates(self.players@, card.id@, t)
                && (e matches EffectTarget::Card(id) && id@ == target_card(self.players@, t).id@),
    {
        let t = match self.frontend_target_from_card(card) {
            Ok(t) => t,
            Err(_) => {
                proof {
                    let pi = choose|pi: int| 0 <= pi < self.players@.len() && holds_card(#[trigger] self.players@[pi], card.id@);
                    assert(!holds_card(self.players@[pi], card.id@));
                }
                return EffectTarget::Card(card.id.clone());
            },
        };
        let target = FrontendTarget::Card(t);
        let e = self.frontend_card_to_effect_target(&target);
        proof {
            assert(locates(self.players@, card.id@, t));
        }
        e
    }
}

} // verus!

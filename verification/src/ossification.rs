//! Ossification's enter ability: the card attaches to the card it entered
//! aimed at and asks its owner, as an ability they must use, to exile a
//! creature of an opponent; using that ability exiles the card aimed at.
use vstd::prelude::*;
use crate::action::{CardAction, CardActionWrapper, CardRequiredTarget, CardTargetTeam, GameAction};
use crate::abilities::{abilities_wf, pending};
use crate::card::{Card, CardType, same_card};
use crate::deck::DeckPile;
use crate::execute::{acting_card, acting_pos, card_action_ready, card_set, found_at, target_card, target_ok};
use crate::game::{Ability, ActionType, FrontendPileName, FrontendTarget, Game, copy_opt_target, pile_of, same_opt_target};
use crate::removal::{exiled, no_opponent_answers, not_for_opponents};

verus! {

/// The ability Ossification asks its owner to use: exiling a creature of an
/// opponent, at no cost, under a fresh id, for the card it belongs to.
pub open spec fn exile_request(a: Ability, card: Card) -> bool {
    &&& a.id@.len() == 26
    &&& same_card(a.card, card)
    &&& card.owner matches Some(o) && a.player@ == o@
    &&& a.mana_cost@.len() == 0
    &&& a.target == CardRequiredTarget::CardOfType(CardType::Creature, CardTargetTeam::Opponent, None)
    &&& a.description@ == "Exile target creature or planeswalker an opponent controls."@
    &&& a.ability matches CardAction::Script(n) && n@ == "ossification_exile"@
    &&& a.canceled is None
    &&& a.action_type == ActionType::NoAction
}

/// How Ossification entering changes the game from `g0` to `g1`: the
/// acting card is attached to the card aimed at, and the exile is asked of
/// its owner as an ability they must use; nothing is given back.
pub open spec fn ossification_entered(g0: Game, g1: Game, w: CardActionWrapper, r: Result<Vec<GameAction>, String>) -> bool {
    let players = g0.players@;
    let (pi, pile, k) = acting_pos(players, w.card@);
    let c = acting_card(players, w.card@);
    let tc = target_card(players, w.target->Some_0->Card_0);
    &&& r matches Ok(v) && v@.len() == 0
    &&& exists|gm: Game, c1: Card, a: Ability| #![trigger card_set(g0, gm, pi, pile, k, c1), exile_request(a, c1)] {
        &&& card_set(g0, gm, pi, pile, k, c1)
        &&& c1 == (Card { attached: c1.attached, ..c })
        &&& c1.attached matches Some(id) && id@ == tc.id@
        &&& exile_request(a, c1)
        &&& g1 == (Game { async_abilities: g1.async_abilities, ..gm })
        &&& abilities_wf(g1.async_abilities@)
        &&& pending(g1.async_abilities@) == pending(g0.async_abilities@).insert(a.id@, a)
    }
}

/// How the exile asked for by Ossification changes the game from `g0` to
/// `g1`: the acting card notes the target, and the card aimed at, if any, is
/// exiled as `Game::exile_card` exiles it.
pub open spec fn ossification_exiled(g0: Game, g1: Game, w: CardActionWrapper, r: Result<Vec<GameAction>, String>) -> bool {
    let players = g0.players@;
    let (pi, pile, k) = acting_pos(players, w.card@);
    let c = acting_card(players, w.card@);
    exists|gm: Game, c1: Card| #![trigger card_set(g0, gm, pi, pile, k, c1)] {
        &&& card_set(g0, gm, pi, pile, k, c1)
        &&& c1 == (Card { target: c1.target, ..c })
        &&& same_opt_target(c1.target, w.target)
        &&& match w.target {
            Some(FrontendTarget::Card(t)) => exists|tc: Card| #[trigger] same_card(tc, target_card(players, t)) && exiled(gm, g1, tc, r),
            _ => g1 == gm && (r matches Ok(v) && v@.len() == 0),
        }
    }
}

/// Replacing a card by one with the same triggers leaves no answer for the
/// opponents only where there was none.
pub proof fn lemma_card_set_keeps_no_opponent_answers(g0: Game, g1: Game, pi: int, pile: FrontendPileName, k: int, c: Card, x: DeckPile)
    requires
        card_set(g0, g1, pi, pile, k, c),
        0 <= pi < g0.players@.len(),
        0 <= k < pile_of(g0.players@[pi], pile).len(),
        c.triggers == pile_of(g0.players@[pi], pile)[k].triggers,
        no_opponent_answers(g0.players@, x),
    ensures
        no_opponent_answers(g1.players@, x),
{
    let p0 = g0.players@;
    let p1 = g1.players@;
    assert forall|qi: int, ci: int, t: int|
        0 <= qi < p1.len() && 0 <= ci < p1[qi].cards_in_play@.len()
            && 0 <= t < p1[qi].cards_in_play@[ci].triggers@.len()
        implies not_for_opponents(#[trigger] p1[qi].cards_in_play@[ci].triggers@[t].trigger_type, x) by {
        if qi != pi {
            assert(p1[qi] == p0[qi]);
            assert(not_for_opponents(p0[qi].cards_in_play@[ci].triggers@[t].trigger_type, x));
        } else if pile == FrontendPileName::Play && ci == k {
            assert(p1[qi].cards_in_play@[ci] == c);
            assert(not_for_opponents(p0[qi].cards_in_play@[ci].triggers@[t].trigger_type, x));
        } else {
            assert(p1[qi].cards_in_play@[ci] == p0[qi].cards_in_play@[ci]);
            assert(not_for_opponents(p0[qi].cards_in_play@[ci].triggers@[t].trigger_type, x));
        }
    }
}

impl Game {
    /// Ossification enters: it attaches to the card aimed at and asks its
    /// owner to exile a creature of an opponent.
    pub(crate) fn ossification_enters(&mut self, w: &CardActionWrapper, pi: usize, pile: FrontendPileName, k: usize) -> (r: Result<Vec<GameAction>, String>)
        requires
            card_action_ready(*old(self), *w),
            w.action matches CardAction::Script(n) && n@ == "ossification_enters"@,
            found_at(old(self).players@, w.card@, pi as int, pile, k as int),
            acting_pos(old(self).players@, w.card@) == (pi as int, pile, k as int),
        ensures
            ossification_entered(*old(self), *final(self), *w, r),
    {
        let ghost g0 = *self;
        let t = match &w.target {
            Some(FrontendTarget::Card(t)) => t,
            _ => {
                proof {
                    assert(false);
                }
                return Ok(Vec::new());
            },
        };
        let (q, tc) = self.target_of(t);
        let mut c = self.take_card(pi, pile, k);
        let ghost g1 = *self;
        c.attached = Some(tc.id.clone());
        let copy = c.copy();
        let ghost c1 = c;
        self.put_card(pi, pile, k, c);
        proof {
            Self::lemma_take_put(g0, g1, *self, pi as int, pile, k as int, c1);
        }
        let ghost gm = *self;
        let owner = match &copy.owner {
            Some(o) => o.clone(),
            None => String::new(),
        };
        let ability = Ability::new(
            copy,
            owner,
            Vec::new(),
            CardRequiredTarget::CardOfType(CardType::Creature, CardTargetTeam::Opponent, None),
            CardAction::Script("ossification_exile".to_string()),
            None,
            "Exile target creature or planeswalker an opponent controls.".to_string(),
            ActionType::NoAction,
        );
        let ghost a = ability;
        proof {
            assert(a.mana_cost@ =~= Seq::<crate::mana::ManaType>::empty());
        }
        self.register_ability(ability);
        proof {
            assert(card_set(g0, gm, pi as int, pile, k as int, c1));
            assert(exile_request(a, c1));
        }
        Ok(Vec::new())
    }

    /// The exile Ossification asked for: the acting card notes the target,
    /// and the card aimed at, if any, is exiled.
    pub(crate) fn ossification_exile(&mut self, w: &CardActionWrapper, pi: usize, pile: FrontendPileName, k: usize) -> (r: Result<Vec<GameAction>, String>)
        requires
            card_action_ready(*old(self), *w),
            w.action matches CardAction::Script(n) && n@ == "ossification_exile"@,
            found_at(old(self).players@, w.card@, pi as int, pile, k as int),
            acting_pos(old(self).players@, w.card@) == (pi as int, pile, k as int),
        ensures
            ossification_exiled(*old(self), *final(self), *w, r),
    {
        let ghost g0 = *self;
        let target_card_copy = match &w.target {
            Some(FrontendTarget::Card(t)) => Some(self.target_of(t).1),
            _ => None,
        };
        let mut c = self.take_card(pi, pile, k);
        let ghost g1 = *self;
        c.target = copy_opt_target(&w.target);
        let ghost c1 = c;
        self.put_card(pi, pile, k, c);
        proof {
            Self::lemma_take_put(g0, g1, *self, pi as int, pile, k as int, c1);
        }
        let ghost gm = *self;
        match target_card_copy {
            Some(tc) => {
                proof {
                    let t = w.target->Some_0->Card_0;
                    assert(w.target == Some(FrontendTarget::Card(t)));
                    reveal_strlit("ossification_enters");
                    reveal_strlit("ossification_exile");
                    assert("ossification_enters"@[14] != "ossification_exile"@[14]);
                    assert("ossification_enters"@ != "ossification_exile"@);
                    let n = w.action->Script_0;
                    assert(n@ == "ossification_exile"@);
                    assert(n@ != "ossification_enters"@);
                    assert(card_action_ready(g0, *w));
                    assert(no_opponent_answers(g0.players@, DeckPile::Exiled));
                    lemma_card_set_keeps_no_opponent_answers(g0, gm, pi as int, pile, k as int, c1, DeckPile::Exiled);
                }
                let r = self.exile_card(&tc);
                proof {
                    let t = w.target->Some_0->Card_0;
                    assert(same_card(tc, target_card(g0.players@, t)));
                    assert(card_set(g0, gm, pi as int, pile, k as int, c1));
                }
                r
            },
            None => {
                proof {
                    assert(card_set(g0, gm, pi as int, pile, k as int, c1));
                }
                Ok(Vec::new())
            },
        }
    }
}

} // verus!

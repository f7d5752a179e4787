//! Abilities a player is asked to use. The game holds each under its id
//! until the player answers: using it gives back the action it carries out,
//! declining it the action that follows a refusal, if any.
use vstd::prelude::*;
use crate::action::{copy_mana, CardActionWrapper, GameAction};
use crate::card::{Card, same_card};
use crate::game::{Ability, ActionType, FrontendTarget, Game};
use crate::lobby::{CardWithDetails, ExecuteAbility, Lobby, LobbyCommand, shown_outside};
use crate::mana::ManaType;
use crate::player::{Player, mana_arith_ok, payment_result, pool_after_paying, pool_covers};
use crate::turn::TurnPhase;

verus! {

/// No two waiting abilities share an id.
pub open spec fn abilities_wf(s: Seq<Ability>) -> bool {
    forall|i: int, j: int| 0 <= i < j < s.len() ==> (#[trigger] s[i]).id@ != (#[trigger] s[j]).id@
}

/// The waiting abilities by id.
pub open spec fn pending(s: Seq<Ability>) -> Map<Seq<char>, Ability>
    decreases s.len(),
{
    if s.len() == 0 {
        Map::empty()
    } else {
        pending(s.drop_last()).insert(s.last().id@, s.last())
    }
}

/// An ability is waiting under `id` exactly when one of the list has that id,
/// and each of the list is the one waiting under its id.
pub proof fn lemma_pending_has(s: Seq<Ability>)
    requires
        abilities_wf(s),
    ensures
        forall|k: Seq<char>| #[trigger] pending(s).contains_key(k) <==> exists|i: int| 0 <= i < s.len() && s[i].id@ == k,
        forall|i: int| 0 <= i < s.len() ==> pending(s)[(#[trigger] s[i]).id@] == s[i],
    decreases s.len(),
{
    if s.len() > 0 {
        let t = s.drop_last();
        lemma_pending_has(t);
        assert forall|k: Seq<char>| #[trigger] pending(s).contains_key(k) <==> exists|i: int| 0 <= i < s.len() && s[i].id@ == k by {
            if pending(s).contains_key(k) {
                if k == s.last().id@ {
                    assert(s[s.len() - 1].id@ == k);
                } else {
                    assert(pending(t).contains_key(k));
                    let i = choose|i: int| 0 <= i < t.len() && t[i].id@ == k;
                    assert(s[i] == t[i]);
                }
            }
            if exists|i: int| 0 <= i < s.len() && s[i].id@ == k {
                let i = choose|i: int| 0 <= i < s.len() && s[i].id@ == k;
                if i < s.len() - 1 {
                    assert(t[i] == s[i]);
                    assert(pending(t).contains_key(k));
                }
            }
        }
        assert forall|i: int| 0 <= i < s.len() implies pending(s)[(#[trigger] s[i]).id@] == s[i] by {
            if i < s.len() - 1 {
                assert(t[i] == s[i]);
                assert(s[i].id@ != s[s.len() - 1].id@);
            }
        }
    }
}

/// Taking one ability out of the list takes its id out of the waiting ones.
pub proof fn lemma_pending_remove(s: Seq<Ability>, i: int)
    requires
        abilities_wf(s),
        0 <= i < s.len(),
    ensures
        abilities_wf(s.remove(i)),
        pending(s.remove(i)) == pending(s).remove(s[i].id@),
    decreases s.len(),
{
    let t = s.drop_last();
    lemma_pending_has(t);
    if i == s.len() - 1 {
        assert(s.remove(i) =~= t);
        assert(!pending(t).contains_key(s[i].id@)) by {
            if pending(t).contains_key(s[i].id@) {
                let j = choose|j: int| 0 <= j < t.len() && t[j].id@ == s[i].id@;
                assert(s[j] == t[j]);
            }
        }
        assert(pending(t) =~= pending(s).remove(s[i].id@));
    } else {
        lemma_pending_remove(t, i);
        assert(s.remove(i) =~= t.remove(i).push(s.last()));
        assert(s.remove(i).drop_last() =~= t.remove(i));
        assert(s[i].id@ != s.last().id@);
        assert(pending(s.remove(i)) =~= pending(s).remove(s[i].id@));
    }
}

/// Putting an ability in the place of the one with its id puts it under its id.
pub proof fn lemma_pending_update(s: Seq<Ability>, i: int, a: Ability)
    requires
        abilities_wf(s),
        0 <= i < s.len(),
        s[i].id@ == a.id@,
    ensures
        abilities_wf(s.update(i, a)),
        pending(s.update(i, a)) == pending(s).insert(a.id@, a),
    decreases s.len(),
{
    let t = s.drop_last();
    if i == s.len() - 1 {
        assert(s.update(i, a).drop_last() =~= t);
        assert(pending(s.update(i, a)) =~= pending(s).insert(a.id@, a));
    } else {
        lemma_pending_update(t, i, a);
        assert(s.update(i, a).drop_last() =~= t.update(i, a));
        assert(s.update(i, a).last() == s.last());
        assert(pending(s.update(i, a)) =~= pending(s).insert(a.id@, a));
    }
    assert forall|x: int, y: int| 0 <= x < y < s.update(i, a).len() implies (#[trigger] s.update(i, a)[x]).id@ != (#[trigger] s.update(i, a)[y]).id@ by {
        assert(s[x].id@ != s[y].id@);
    }
}

/// An ability that is held can be found under its id as it was given; once
/// it is used or declined its id is free again, so a second answer fails,
/// and the other waiting abilities are as they were before it was held.
pub proof fn law_answered_ability_is_gone(s: Seq<Ability>, a: Ability)
    ensures
        pending(s).insert(a.id@, a).contains_key(a.id@),
        pending(s).insert(a.id@, a)[a.id@] == a,
        !pending(s).insert(a.id@, a).remove(a.id@).contains_key(a.id@),
        pending(s).insert(a.id@, a).remove(a.id@) == pending(s).remove(a.id@),
{
    assert(pending(s).insert(a.id@, a).remove(a.id@) =~= pending(s).remove(a.id@));
}

/// Where the ability with the given id lies, if it is waiting.
fn find_ability(abilities: &Vec<Ability>, id: &String) -> (r: Option<usize>)
    ensures
        match r {
            Some(i) => i < abilities@.len() && abilities@[i as int].id@ == id@,
            None => forall|i: int| 0 <= i < abilities@.len() ==> abilities@[i].id@ != id@,
        },
{
    let mut i: usize = 0;
    while i < abilities.len()
        invariant
            i <= abilities@.len(),
            forall|j: int| 0 <= j < i ==> abilities@[j].id@ != id@,
        decreases abilities@.len() - i,
    {
        if abilities[i].id == *id {
            return Some(i);
        }
        i = i + 1;
    }
    None
}

/// The request sent to the ability's player: the card shown outside the
/// table, and the ability's cost, target, description, kind and id, marked
/// as shown, as met and as payable.
pub open spec fn asked(e: ExecuteAbility, a: Ability) -> bool {
    let owner = a.card.owner.unwrap();
    &&& e.player_id@ == owner@
    &&& shown_outside(e.card, e.card.card)
    &&& same_card(e.card.card, a.card)
    &&& e.details.mana_cost@ == a.mana_cost@
    &&& e.details.required_target == a.target
    &&& e.details.description@ == a.description@
    &&& e.details.action_type == a.action_type
    &&& e.details.show
    &&& e.details.id@ == a.id@
    &&& e.details.meets_requirements_except_mana
    &&& e.details.meets_mana_requirements
    &&& e.details.can_pay_mana
    &&& e.details.owner_player_id matches Some(o) && o@ == owner@
    &&& !e.details.tap_required
    &&& e.details.action is None
}

/// What happens to an ability its player answered.
pub enum AbilityAnswer {
    /// The action to carry out now.
    Run(GameAction),
    /// The ability has a cost: it is to be paid, and then used, as soon as
    /// the player can pay it, as long as the phase stays the same.
    AwaitMana(TurnPhase, Vec<ManaType>),
    /// The ability was declined, with the action that follows, if any.
    Declined(Option<GameAction>),
}

/// One look at an ability waiting to be paid for.
pub enum PaymentStep {
    /// The phase is over: the ability is no longer paid for.
    PhaseOver,
    /// The player cannot pay yet.
    Waiting,
    /// The cost was paid; the ability's action, or why it could not be used.
    Paid(Result<GameAction, String>),
}

/// `g` carries out `action` for the ability's card, aimed at `target`, under
/// the ability's id `id`.
pub open spec fn carried(g: GameAction, a: Ability, action: crate::action::CardAction, target: Option<FrontendTarget>, id: Seq<char>) -> bool {
    match g {
        GameAction::Card(w) => {
            &&& w.card@ == a.card.id@
            &&& w.action == action
            &&& w.target == target
            &&& w.ability_id matches Some(i)
            &&& i@ == id
        },
        _ => false,
    }
}

/// How `g1` and `r` follow from `g0` when a player answers the waiting
/// ability with the given id: no declines it and gives the follow-up of a
/// refusal, if any; yes to one with a cost leaves it waiting for the cost to
/// be paid in the current phase; yes to one without a cost takes it out and
/// gives its action aimed at the target; with no ability under that id it
/// fails and nothing changes.
pub open spec fn ability_answered(g0: Game, g1: Game, ability_id: Seq<char>, response: bool, target: Option<FrontendTarget>, r: Result<AbilityAnswer, String>) -> bool {
    &&& abilities_wf(g1.async_abilities@)
    &&& g1 == (Game { async_abilities: g1.async_abilities, ..g0 })
    &&& pending(g0.async_abilities@).contains_key(ability_id) ==> {
        let a = pending(g0.async_abilities@)[ability_id];
        if !response {
            &&& r matches Ok(AbilityAnswer::Declined(d)) && match a.canceled {
                Some(c) => d matches Some(g) && carried(g, a, c, None, ability_id),
                None => d is None,
            }
            &&& pending(g1.async_abilities@) == pending(g0.async_abilities@).remove(ability_id)
        } else if a.mana_cost@.len() > 0 {
            &&& r matches Ok(AbilityAnswer::AwaitMana(phase, cost)) && phase == g0.current_turn.unwrap().phase
                && cost@ == a.mana_cost@
            &&& g1.async_abilities == g0.async_abilities
        } else {
            &&& r matches Ok(AbilityAnswer::Run(g)) && carried(g, a, a.ability, target, ability_id)
            &&& pending(g1.async_abilities@) == pending(g0.async_abilities@).remove(ability_id)
        }
    }
    &&& !pending(g0.async_abilities@).contains_key(ability_id) ==> {
        &&& r matches Err(e) && e@ == "No ability with that id"@
        &&& g1.async_abilities == g0.async_abilities
    }
}

impl Game {
    /// Holds the ability under its id, in place of any waiting under it.
    pub(crate) fn register_ability(&mut self, ability: Ability)
        requires
            abilities_wf(old(self).async_abilities@),
        ensures
            abilities_wf(final(self).async_abilities@),
            pending(final(self).async_abilities@) == pending(old(self).async_abilities@).insert(ability.id@, ability),
            *final(self) == (Game { async_abilities: final(self).async_abilities, ..*old(self) }),
    {
        let found = find_ability(&self.async_abilities, &ability.id);
        match found {
            Some(i) => {
                proof {
                    lemma_pending_update(self.async_abilities@, i as int, ability);
                }
                self.async_abilities.set(i, ability);
            },
            None => {
                let ghost s = self.async_abilities@;
                self.async_abilities.push(ability);
                proof {
                    assert(self.async_abilities@.drop_last() =~= s);
                }
            },
        }
    }

    /// The request to put to the ability's player.
    fn ability_request(ability: &Ability) -> (e: ExecuteAbility)
        requires
            ability.card.owner is Some,
        ensures
            asked(e, *ability),
    {
        let owner = match &ability.card.owner {
            Some(o) => o.clone(),
            None => String::new(),
        };
        let card = CardWithDetails::from_card(ability.card.copy());
        ExecuteAbility::new(
            owner,
            card,
            ability.action_type,
            copy_mana(&ability.mana_cost),
            ability.target,
            ability.description.clone(),
            ability.id.clone(),
            true,
            true,
            true,
            None,
        )
    }

    /// Holds an ability its card's owner must use, and gives back the
    /// request to send them.
    pub fn ask_mandatory_player_ability(&mut self, ability: Ability) -> (cmd: LobbyCommand)
        requires
            ability.card.owner is Some,
            abilities_wf(old(self).async_abilities@),
        ensures
            abilities_wf(final(self).async_abilities@),
            pending(final(self).async_abilities@) == pending(old(self).async_abilities@).insert(ability.id@, ability),
            *final(self) == (Game { async_abilities: final(self).async_abilities, ..*old(self) }),
            cmd matches LobbyCommand::MandatoryExecuteAbility(e) && asked(e, ability),
    {
        let e = Game::ability_request(&ability);
        self.register_ability(ability);
        LobbyCommand::MandatoryExecuteAbility(e)
    }

    /// Holds an ability its card's owner may use, and gives back the request
    /// to send them.
    pub fn request_player_ability(&mut self, ability: Ability) -> (cmd: LobbyCommand)
        requires
            ability.card.owner is Some,
            abilities_wf(old(self).async_abilities@),
        ensures
            abilities_wf(final(self).async_abilities@),
            pending(final(self).async_abilities@) == pending(old(self).async_abilities@).insert(ability.id@, ability),
            *final(self) == (Game { async_abilities: final(self).async_abilities, ..*old(self) }),
            cmd matches LobbyCommand::AskExecuteAbility(e) && asked(e, ability),
    {
        let e = Game::ability_request(&ability);
        self.register_ability(ability);
        LobbyCommand::AskExecuteAbility(e)
    }

    /// Takes the waiting ability with the given id out of the game.
    fn take_ability(&mut self, ability_id: &String) -> (r: Result<Ability, String>)
        requires
            abilities_wf(old(self).async_abilities@),
        ensures
            abilities_wf(final(self).async_abilities@),
            *final(self) == (Game { async_abilities: final(self).async_abilities, ..*old(self) }),
            pending(old(self).async_abilities@).contains_key(ability_id@) ==> {
                &&& r matches Ok(a) && a == pending(old(self).async_abilities@)[ability_id@]
                &&& pending(final(self).async_abilities@) == pending(old(self).async_abilities@).remove(ability_id@)
            },
            !pending(old(self).async_abilities@).contains_key(ability_id@) ==> {
                &&& r matches Err(e) && e@ == "No ability with that id"@
                &&& final(self).async_abilities == old(self).async_abilities
            },
    {
        proof {
            lemma_pending_has(self.async_abilities@);
            reveal_strlit("No ability with that id");
        }
        match find_ability(&self.async_abilities, ability_id) {
            Some(i) => {
                proof {
                    lemma_pending_remove(self.async_abilities@, i as int);
                }
                let a = self.async_abilities.remove(i);
                Ok(a)
            },
            None => Err("No ability with that id".to_string()),
        }
    }

    /// Uses the waiting ability with the given id: takes it out of the game
    /// and gives back its action, aimed at the target, to carry out; fails
    /// when no ability waits under that id.
    pub fn execute_ability(&mut self, ability_id: String, target: Option<FrontendTarget>) -> (r: Result<GameAction, String>)
        requires
            abilities_wf(old(self).async_abilities@),
        ensures
            abilities_wf(final(self).async_abilities@),
            *final(self) == (Game { async_abilities: final(self).async_abilities, ..*old(self) }),
            pending(old(self).async_abilities@).contains_key(ability_id@) ==> {
                let a = pending(old(self).async_abilities@)[ability_id@];
                &&& r matches Ok(g) && carried(g, a, a.ability, target, ability_id@)
                &&& pending(final(self).async_abilities@) == pending(old(self).async_abilities@).remove(ability_id@)
            },
            !pending(old(self).async_abilities@).contains_key(ability_id@) ==> {
                &&& r matches Err(e) && e@ == "No ability with that id"@
                &&& final(self).async_abilities == old(self).async_abilities
            },
    {
        match self.take_ability(&ability_id) {
            Ok(a) => Ok(GameAction::Card(CardActionWrapper { card: a.card.id, action: a.ability, target, ability_id: Some(ability_id) })),
            Err(e) => Err(e),
        }
    }

    /// Declines the waiting ability with the given id: takes it out of the
    /// game and gives back the action that follows a refusal, if it has one;
    /// fails when no ability waits under that id.
    pub fn cancel_ability(&mut self, ability_id: String) -> (r: Result<Option<GameAction>, String>)
        requires
            abilities_wf(old(self).async_abilities@),
        ensures
            abilities_wf(final(self).async_abilities@),
            *final(self) == (Game { async_abilities: final(self).async_abilities, ..*old(self) }),
            pending(old(self).async_abilities@).contains_key(ability_id@) ==> {
                let a = pending(old(self).async_abilities@)[ability_id@];
                &&& r is Ok
                &&& match a.canceled {
                    Some(c) => r matches Ok(Some(g)) && carried(g, a, c, None, ability_id@),
                    None => r matches Ok(None),
                }
                &&& pending(final(self).async_abilities@) == pending(old(self).async_abilities@).remove(ability_id@)
            },
            !pending(old(self).async_abilities@).contains_key(ability_id@) ==> {
                &&& r matches Err(e) && e@ == "No ability with that id"@
                &&& final(self).async_abilities == old(self).async_abilities
            },
    {
        match self.take_ability(&ability_id) {
            Ok(a) => match a.canceled {
                Some(c) => Ok(Some(GameAction::Card(CardActionWrapper { card: a.card.id, action: c, target: None, ability_id: Some(ability_id) }))),
                None => Ok(None),
            },
            Err(e) => Err(e),
        }
    }

    /// A player's answer to a waiting ability. Yes to an ability without a
    /// cost uses it at once; yes to one with a cost leaves it waiting for the
    /// cost to be paid in the current phase; no declines it. Fails when no
    /// ability waits under that id.
    pub fn respond_player_ability(&mut self, ability_id: String, response: bool, target: Option<FrontendTarget>) -> (r: Result<AbilityAnswer, String>)
        requires
            abilities_wf(old(self).async_abilities@),
            old(self).current_turn is Some,
        ensures
            ability_answered(*old(self), *final(self), ability_id@, response, target, r),
    {
        proof {
            lemma_pending_has(self.async_abilities@);
            reveal_strlit("No ability with that id");
        }
        let cost = match find_ability(&self.async_abilities, &ability_id) {
            Some(i) => copy_mana(&self.async_abilities[i].mana_cost),
            None => return Err("No ability with that id".to_string()),
        };
        let phase = self.current_phase();
        if response {
            if cost.len() > 0 {
                Ok(AbilityAnswer::AwaitMana(phase, cost))
            } else {
                match self.execute_ability(ability_id, target) {
                    Ok(a) => Ok(AbilityAnswer::Run(a)),
                    Err(e) => Err(e),
                }
            }
        } else {
            match self.cancel_ability(ability_id) {
                Ok(d) => Ok(AbilityAnswer::Declined(d)),
                Err(e) => Err(e),
            }
        }
    }

    /// One look at an ability waiting for its cost: when the phase has moved
    /// on from `phase`, it is given up; when the player can pay `cost` from
    /// the pool, the cost is paid and the ability used; otherwise it waits.
    pub fn pay_for_ability(&mut self, player: usize, ability_id: String, phase: TurnPhase, cost: &Vec<ManaType>, target: Option<FrontendTarget>) -> (r: PaymentStep)
        requires
            abilities_wf(old(self).async_abilities@),
            old(self).current_turn is Some,
            player < old(self).players@.len(),
            mana_arith_ok(old(self).players@[player as int].mana_pool, cost@),
        ensures
            abilities_wf(final(self).async_abilities@),
            old(self).current_turn.unwrap().phase != phase ==> r is PhaseOver && *final(self) == *old(self),
            old(self).current_turn.unwrap().phase == phase && !pool_covers(old(self).players@[player as int].mana_pool, cost@) ==>
                r is Waiting && *final(self) == *old(self),
            old(self).current_turn.unwrap().phase == phase && pool_covers(old(self).players@[player as int].mana_pool, cost@) ==> {
                let p0 = old(self).players@[player as int];
                let p1 = final(self).players@[player as int];
                &&& final(self).players@ == old(self).players@.update(player as int, p1)
                &&& p1 == (Player { mana_pool: pool_after_paying(p0.mana_pool, cost@), ..p0 })
                &&& *final(self) == (Game { players: final(self).players, async_abilities: final(self).async_abilities, ..*old(self) })
                &&& r matches PaymentStep::Paid(u)
                &&& pending(old(self).async_abilities@).contains_key(ability_id@) ==> {
                    let a = pending(old(self).async_abilities@)[ability_id@];
                    &&& u matches Ok(g) && carried(g, a, a.ability, target, ability_id@)
                    &&& pending(final(self).async_abilities@) == pending(old(self).async_abilities@).remove(ability_id@)
                }
                &&& !pending(old(self).async_abilities@).contains_key(ability_id@) ==> {
                    &&& u matches Err(e) && e@ == "No ability with that id"@
                    &&& final(self).async_abilities == old(self).async_abilities
                }
            },
    {
        if self.current_phase() != phase {
            return PaymentStep::PhaseOver;
        }
        if !self.players[player].has_required_mana(cost) {
            return PaymentStep::Waiting;
        }
        let mut p = self.players.remove(player);
        let ghost p0 = p;
        let _ = p.pay_mana(cost);
        proof {
            assert(p == (Player { mana_pool: pool_after_paying(p0.mana_pool, cost@), ..p0 }));
        }
        self.players.insert(player, p);
        PaymentStep::Paid(self.execute_ability(ability_id, target))
    }
}

impl Lobby {
    /// A player's yes to an ability they must use, as
    /// `Game::respond_player_ability` takes it.
    pub fn respond_mandatory_player_ability(&mut self, ability_id: String, target: Option<FrontendTarget>) -> (r: Result<AbilityAnswer, String>)
        requires
            abilities_wf(old(self).game.async_abilities@),
            old(self).game.current_turn is Some,
        ensures
            final(self).data == old(self).data,
            ability_answered(old(self).game, final(self).game, ability_id@, true, target, r),
    {
        self.game.respond_player_ability(ability_id, true, target)
    }

    /// A player's answer to an ability they may use, as
    /// `Game::respond_player_ability` takes it.
    pub fn respond_optional_player_ability(&mut self, ability_id: String, target: Option<FrontendTarget>, response: bool) -> (r: Result<AbilityAnswer, String>)
        requires
            abilities_wf(old(self).game.async_abilities@),
            old(self).game.current_turn is Some,
        ensures
            final(self).data == old(self).data,
            ability_answered(old(self).game, final(self).game, ability_id@, response, target, r),
    {
        self.game.respond_player_ability(ability_id, response, target)
    }
}

} // verus!

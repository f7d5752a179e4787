//! A card asking its owner to use a further ability: when the owner's lands
//! can pay for it, the ability is held for the owner's answer.
use vstd::prelude::*;
use crate::action::{CardAction, CardActionWrapper, CardRequiredTarget, GameAction, PlayCardAction, copy_mana};
use crate::abilities::{abilities_wf, pending};
use crate::card::{Card, same_card};
use crate::execute::{acting_card, card_action_ready, owner_seat};
use crate::game::{Ability, ActionType, Game};
use crate::mana::ManaType;
use crate::player::lands_cover;

verus! {

/// The ability asked of the owner `owner` for the card `card`: under a fresh
/// id, with the given cost, target, script, description and kind; one the
/// owner may decline plays the card when declined.
pub open spec fn additional_request(
    a: Ability,
    card: Card,
    owner: Seq<char>,
    cost: Seq<ManaType>,
    target: CardRequiredTarget,
    script: Seq<char>,
    description: Seq<char>,
    action_type: ActionType,
    optional: bool,
) -> bool {
    &&& a.id@.len() == 26
    &&& same_card(a.card, card)
    &&& a.player@ == owner
    &&& a.mana_cost@ == cost
    &&& a.target == target
    &&& a.ability matches CardAction::Script(n) && n@ == script
    &&& if optional {
        a.canceled matches Some(CardAction::PlayCard(_))
    } else {
        a.canceled is None
    }
    &&& a.description@ == description
    &&& a.action_type == action_type
}

/// How asking for a further ability changes the game from `g0` to `g1`:
/// when the untapped lands of the card's owner cover the cost, the ability
/// is held for the owner's answer, and otherwise nothing changes; nothing is
/// given back either way.
pub open spec fn additional_cast(g0: Game, g1: Game, w: CardActionWrapper, r: Result<Vec<GameAction>, String>) -> bool {
    let players = g0.players@;
    let c = acting_card(players, w.card@);
    let o = owner_seat(players, w.card@);
    &&& r matches Ok(v) && v@.len() == 0
    &&& match w.action {
        CardAction::CastAdditional(cost, target, script, description, action_type, optional) =>
            if lands_cover(players[o].cards_in_play@, cost@) {
                exists|a: Ability| #![trigger additional_request(a, c, c.owner->Some_0@, cost@, target, script@, description@, action_type, optional)] {
                    &&& additional_request(a, c, c.owner->Some_0@, cost@, target, script@, description@, action_type, optional)
                    &&& g1 == (Game { async_abilities: g1.async_abilities, ..g0 })
                    &&& abilities_wf(g1.async_abilities@)
                    &&& pending(g1.async_abilities@) == pending(g0.async_abilities@).insert(a.id@, a)
                }
            } else {
                g1 == g0
            },
        _ => g1 == g0,
    }
}

impl Game {
    /// Asks the owner of the acting card `card` to use a further ability.
    pub(crate) fn cast_additional(&mut self, w: &CardActionWrapper, o: usize, card: Card) -> (r: Result<Vec<GameAction>, String>)
        requires
            card_action_ready(*old(self), *w),
            w.action is CastAdditional,
            o as int == owner_seat(old(self).players@, w.card@),
            0 <= o < old(self).players@.len(),
            same_card(card, acting_card(old(self).players@, w.card@)),
        ensures
            additional_cast(*old(self), *final(self), *w, r),
    {
        let ghost g0 = *self;
        match &w.action {
            CardAction::CastAdditional(cost, target, script, description, action_type, optional) => {
                if self.players[o].can_pay_mana(cost) {
                    let owner = match &card.owner {
                        Some(n) => n.clone(),
                        None => String::new(),
                    };
                    let canceled = if *optional {
                        Some(CardAction::PlayCard(PlayCardAction {}))
                    } else {
                        None
                    };
                    let ability = Ability::new(
                        card,
                        owner,
                        copy_mana(cost),
                        *target,
                        CardAction::Script(script.clone()),
                        canceled,
                        description.clone(),
                        *action_type,
                    );
                    let ghost a = ability;
                    self.register_ability(ability);
                    proof {
                        let c = acting_card(g0.players@, w.card@);
                        assert(same_card(a.card, c));
                        assert(a.player@ == c.owner->Some_0@);
                        assert(a.ability matches CardAction::Script(n) && n@ == script@);
                        assert(additional_request(a, c, c.owner->Some_0@, cost@, *target, script@, description@, *action_type, *optional));
                        assert(pending(self.async_abilities@) == pending(g0.async_abilities@).insert(a.id@, a));
                    }
                }
                Ok(Vec::new())
            },
            _ => Ok(Vec::new()),
        }
    }
}

} // verus!

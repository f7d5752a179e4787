//! Cards: their kinds, their state on the table, and their rules text as data.
use vstd::prelude::*;
use crate::action::{same_action, ActionBuilder, CardAction, CardRequiredTarget, DeclareAttackerAction, ActionTriggerType, CardActionTrigger, PhaseTarget, same_restrictions, same_triggers, copy_phases, copy_mana, copy_triggers};
use crate::action::{PlayCardAction, phases_contain};
use crate::game::{AbilityDetails, ActionType, FrontendTarget, copy_opt_target, same_opt_target};
use crate::player::{Player, mana_arith_ok, pool_covers, lands_cover};
use crate::mana::{ManaType, mana_symbol, count_of};
use crate::mana::join_groups;
use crate::stat::{Stat, StatManager, StatType, Stats};
use crate::text::{decimal, push_decimal};
use crate::turn::TurnPhase;

verus! {

/// The tribe of a creature.
#[derive(Debug, Clone, Copy, PartialEq, Eq, Structural)]
pub enum CreatureType {
    Untyped,
    Angel,
    Elf,
}

/// The kind of a card; lands carry the mana they are aligned with.
#[derive(Debug, Clone, Copy, PartialEq, Eq, Structural)]
pub enum CardType {
    Creature,
    Planeswalker,
    Enchantment,
    Instant,
    Sorcery,
    Artifact,
    BasicLand(ManaType),
    AdvancedLand(ManaType),
    AdvancedMultiLand(ManaType, ManaType),
}

/// Whether a card type is a land of any kind.
pub open spec fn is_land(t: CardType) -> bool {
    match t {
        CardType::BasicLand(_) | CardType::AdvancedLand(_) | CardType::AdvancedMultiLand(_, _) => true,
        _ => false,
    }
}

impl CardType {
    /// Everything but lands is a spell.
    pub fn is_spell(&self) -> (b: bool)
        ensures
            b == !is_land(*self),
    {
        match self {
            CardType::BasicLand(_) => false,
            CardType::AdvancedLand(_) => false,
            CardType::AdvancedMultiLand(_, _) => false,
            _ => true,
        }
    }
}

/// How far a card is from being usable.
#[derive(Debug, Clone, Copy, PartialEq, Eq, Structural)]
pub enum CardPhase {
    Charging(u8),
    Ready,
    Complete,
    Cancelled,
}

/// A counter that can be put on a card.
#[derive(Debug, Clone, Copy, PartialEq, Eq, Structural)]
pub enum Counter {
    PowerToughnessModifier(i16, i16),
    Incremental(i16),
}

/// A card as it lies on the table. Its owner is named by the owner's player
/// name and the card it is attached to by that card's id.
pub struct Card {
    pub play_restrictions: Option<(Vec<TurnPhase>, PhaseTarget)>,
    pub creature_type: Option<CreatureType>,
    pub name: String,
    pub description: String,
    pub card_type: CardType,
    pub current_phase: CardPhase,
    pub target: Option<FrontendTarget>,
    pub tapped: bool,
    pub stats: StatManager,
    pub triggers: Vec<CardActionTrigger>,
    pub cost: Vec<ManaType>,
    pub owner: Option<String>,
    pub attached: Option<String>,
    pub damage_dealt_to_players: i16,
    pub damage_taken: i16,
    pub is_countered: bool,
    pub id: String,
    pub counters: Vec<(String, Counter)>,
}

/// Two optional strings are both absent or hold the same characters.
pub open spec fn same_opt_str(a: Option<String>, b: Option<String>) -> bool {
    match (a, b) {
        (None, None) => true,
        (Some(x), Some(y)) => x@ == y@,
        _ => false,
    }
}

/// The counters of a card, keys taken by their characters.
pub open spec fn counters_view(c: Seq<(String, Counter)>) -> Seq<(Seq<char>, Counter)> {
    c.map_values(|e: (String, Counter)| (e.0@, e.1))
}

/// Two cards agree in every field.
pub open spec fn same_card(a: Card, b: Card) -> bool {
    &&& same_restrictions(a.play_restrictions, b.play_restrictions)
    &&& a.creature_type == b.creature_type
    &&& a.name@ == b.name@
    &&& a.description@ == b.description@
    &&& a.card_type == b.card_type
    &&& a.current_phase == b.current_phase
    &&& same_opt_target(a.target, b.target)
    &&& a.tapped == b.tapped
    &&& a.stats.view() == b.stats.view()
    &&& a.stats.listeners@ == b.stats.listeners@
    &&& same_triggers(a.triggers@, b.triggers@)
    &&& a.cost@ == b.cost@
    &&& same_opt_str(a.owner, b.owner)
    &&& same_opt_str(a.attached, b.attached)
    &&& a.damage_dealt_to_players == b.damage_dealt_to_players
    &&& a.damage_taken == b.damage_taken
    &&& a.is_countered == b.is_countered
    &&& a.id@ == b.id@
    &&& counters_view(a.counters@) == counters_view(b.counters@)
}

/// The card is owned by the player of the given name.
pub open spec fn owned_by(c: Card, player: Seq<char>) -> bool {
    c.owner matches Some(o) && o@ == player
}

/// Two lists of cards agree card by card.
pub open spec fn same_cards(a: Seq<Card>, b: Seq<Card>) -> bool {
    a.len() == b.len() && forall|i: int| 0 <= i < a.len() ==> same_card(#[trigger] a[i], b[i])
}

/// Whether a trigger type makes a card worth keeping on the battlefield.
pub open spec fn keeps_card_useful(t: ActionTriggerType) -> bool {
    match t {
        ActionTriggerType::CardEnteredBattlefield => false,
        ActionTriggerType::Omnipresent => false,
        ActionTriggerType::Detached => false,
        ActionTriggerType::CardDestroyed => false,
        _ => true,
    }
}

/// No trigger of the card keeps it useful, and no effect stems from it.
pub open spec fn card_useless(c: Card, has_effects: bool) -> bool {
    !(exists|i: int| 0 <= i < c.triggers@.len() && keeps_card_useful(#[trigger] c.triggers@[i].trigger_type)) && !has_effects
}

/// The tokens of a rendered cost, read from the left: a run of generic mana
/// collapses into a count that stands before the next coloured symbol, and
/// the count of generic mana still pending.
pub open spec fn cost_scan(cost: Seq<ManaType>) -> (Seq<Seq<char>>, nat)
    decreases cost.len(),
{
    if cost.len() == 0 {
        (Seq::empty(), 0)
    } else {
        let (tokens, pending) = cost_scan(cost.drop_last());
        let m = cost.last();
        if m == ManaType::Colorless {
            (tokens, pending + 1)
        } else if pending > 0 {
            (tokens.push(generic_token(pending)).push(mana_symbol(m)), 0)
        } else {
            (tokens.push(mana_symbol(m)), 0)
        }
    }
}

/// The rendering of `n` generic mana, such as `{3C}`.
pub open spec fn generic_token(n: nat) -> Seq<char> {
    seq!['{'] + decimal(n) + seq!['C', '}']
}

/// The tokens of a rendered cost, the pending generic count closing it.
pub open spec fn cost_tokens(cost: Seq<ManaType>) -> Seq<Seq<char>> {
    let (tokens, pending) = cost_scan(cost);
    if pending > 0 { tokens.push(generic_token(pending)) } else { tokens }
}


/// Whether a restriction to phases and to whose turn lets something happen in
/// the given phase; no restriction lets everything happen.
pub open spec fn restriction_allows(r: Option<(Vec<TurnPhase>, PhaseTarget)>, phase: TurnPhase, is_owner: bool) -> bool {
    match r {
        None => true,
        Some((phases, target)) => phases@.contains(phase) && match target {
            PhaseTarget::Owner => is_owner,
            PhaseTarget::Opponent => !is_owner,
            PhaseTarget::Any => true,
        },
    }
}

/// Whether a restriction names one of the main phases.
pub open spec fn restricted_to_main(r: Option<(Vec<TurnPhase>, PhaseTarget)>) -> bool {
    match r {
        None => false,
        Some((phases, _)) => phases@.contains(TurnPhase::Main) || phases@.contains(TurnPhase::Main2),
    }
}

/// Whether a trigger shows up as an ability in the given phase.
pub open spec fn gives_ability(t: CardActionTrigger, phase: TurnPhase) -> bool {
    match t.trigger_type {
        ActionTriggerType::Attached => phase == TurnPhase::Main,
        ActionTriggerType::AbilityWithinPhases(..) => true,
        _ => false,
    }
}

/// The positions of the triggers that show up as abilities, in order.
pub open spec fn ability_positions(ts: Seq<CardActionTrigger>, phase: TurnPhase) -> Seq<int>
    decreases ts.len(),
{
    if ts.len() == 0 {
        Seq::empty()
    } else {
        let rest = ability_positions(ts.drop_last(), phase);
        if gives_ability(ts.last(), phase) { rest.push(ts.len() - 1) } else { rest }
    }
}

/// The name of the owner, when the owner is at hand.
pub open spec fn owner_name(owner: Option<&Player>) -> Option<Seq<char>> {
    match owner {
        Some(o) => Some(o.name@),
        None => None,
    }
}

/// An optional string by its characters.
pub open spec fn opt_chars(s: Option<String>) -> Option<Seq<char>> {
    match s {
        Some(x) => Some(x@),
        None => None,
    }
}

/// The owner is at hand and its pool pays for the cost.
pub open spec fn owner_covers(owner: Option<&Player>, cost: Seq<ManaType>) -> bool {
    match owner {
        Some(o) => pool_covers(o.mana_pool, cost),
        None => false,
    }
}

/// The owner is at hand and its untapped cards can produce the cost.
pub open spec fn owner_can_produce(owner: Option<&Player>, cost: Seq<ManaType>) -> bool {
    match owner {
        Some(o) => lands_cover(o.cards_in_play@, cost),
        None => false,
    }
}

/// An optional action that is the given action.
pub open spec fn is_action(a: Option<CardAction>, b: CardAction) -> bool {
    match a {
        Some(x) => same_action(x, b),
        None => false,
    }
}

/// The owner, when at hand, can count every cost the card's abilities ask
/// for, and the card's own cost, in its pool.
pub open spec fn owner_counts_costs(card: Card, owner: Option<&Player>) -> bool {
    match owner {
        Some(o) => {
            &&& mana_arith_ok(o.mana_pool, card.cost@)
            &&& forall|i: int| 0 <= i < card.triggers@.len() ==> match (#[trigger] card.triggers@[i]).trigger_type {
                ActionTriggerType::AbilityWithinPhases(_, m, _, _, _) => mana_arith_ok(o.mana_pool, m@),
                _ => true,
            }
        },
        None => true,
    }
}

/// `a` is the ability that trigger `t` of `card` gives: an attach ability in
/// the main phase, or an activated ability whose flags say whether its phase
/// and tap conditions and its own requirement hold, and whether the owner's
/// pool and untapped cards pay for it.
pub open spec fn is_trigger_ability(
    a: AbilityDetails,
    t: CardActionTrigger,
    card: Card,
    phase: TurnPhase,
    in_play: bool,
    owner: Option<&Player>,
    current_player_is_owner: Option<bool>,
    requirement: Option<bool>,
) -> bool {
    &&& a.id@ == t.id@
    &&& a.required_target == t.card_required_target
    &&& opt_chars(a.owner_player_id) == owner_name(owner)
    &&& is_action(a.action, t.action)
    &&& match t.trigger_type {
        ActionTriggerType::Attached => {
            &&& a.action_type == ActionType::Attach
            &&& a.mana_cost@.len() == 0
            &&& a.description@ == "Attach"@
            &&& a.show == in_play
            &&& a.meets_requirements_except_mana == in_play
            &&& a.meets_mana_requirements
            &&& a.can_pay_mana
            &&& !a.tap_required
        },
        ActionTriggerType::AbilityWithinPhases(description, mana, restriction, tap, _) => {
            let is_owner = match current_player_is_owner { Some(b) => b, None => false };
            let met = restriction_allows(restriction, phase, is_owner)
                && in_play
                && ((!card.tapped && card.current_phase == CardPhase::Ready) || !tap)
                && match requirement { Some(b) => b, None => true };
            &&& a.action_type == (if tap { ActionType::Tap } else { ActionType::Instant })
            &&& a.mana_cost@ == mana@
            &&& a.description@ == description@
            &&& a.show == (met || restriction.is_none() || restricted_to_main(restriction))
            &&& a.meets_requirements_except_mana == met
            &&& a.meets_mana_requirements == owner_covers(owner, mana@)
            &&& a.can_pay_mana == owner_can_produce(owner, mana@)
            &&& a.tap_required == tap
        },
        _ => false,
    }
}

/// `a` is the ability of playing `card` from the hand.
pub open spec fn is_play_ability(a: AbilityDetails, card: Card, phase: TurnPhase, owner: Option<&Player>, current_player_is_owner: Option<bool>) -> bool {
    let is_owner = match current_player_is_owner { Some(b) => b, None => true };
    &&& a.id@ == "play_card"@
    &&& a.action_type == ActionType::PlayedCard
    &&& a.mana_cost@.len() == 0
    &&& a.required_target == CardRequiredTarget::NoTarget
    &&& a.description@ == "Play"@
    &&& !a.show
    &&& a.meets_requirements_except_mana == restriction_allows(card.play_restrictions, phase, is_owner)
    &&& a.meets_mana_requirements == owner_covers(owner, card.cost@)
    &&& a.can_pay_mana == owner_can_produce(owner, card.cost@)
    &&& opt_chars(a.owner_player_id) == owner_name(owner)
    &&& !a.tap_required
    &&& a.action == Some(CardAction::PlayCard(PlayCardAction {}))
}

pub proof fn lemma_ability_positions(ts: Seq<CardActionTrigger>, phase: TurnPhase)
    ensures
        forall|k: int| 0 <= k < ability_positions(ts, phase).len() ==> 0 <= #[trigger] ability_positions(ts, phase)[k] < ts.len(),
    decreases ts.len(),
{
    if ts.len() > 0 {
        let rest = ability_positions(ts.drop_last(), phase);
        lemma_ability_positions(ts.drop_last(), phase);
        assert forall|k: int| 0 <= k < ability_positions(ts, phase).len() implies 0 <= #[trigger] ability_positions(ts, phase)[k] < ts.len() by {
            if k < rest.len() {
                assert(ability_positions(ts, phase)[k] == rest[k]);
            }
        }
    }
}

impl Card {
    /// The abilities the card offers in the given phase: the attach ability
    /// of each attach trigger in the main phase, every activated ability, and,
    /// for a card not yet in play, playing it. `owner` is the card's owner when
    /// at hand; `current_player_is_owner` says, when the game has a current
    /// turn, whether that turn is the owner's; `requirements` holds, when the
    /// game and the card are at hand, whether each trigger's own requirement
    /// is met.
    pub fn abilities(
        &self,
        turn_phase: TurnPhase,
        in_play: bool,
        owner: Option<&Player>,
        current_player_is_owner: Option<bool>,
        requirements: Option<&Vec<bool>>,
    ) -> (r: Vec<AbilityDetails>)
        requires
            match requirements {
                Some(v) => v@.len() == self.triggers@.len(),
                None => true,
            },
            owner_counts_costs(*self, owner),
        ensures
            r@.len() == ability_positions(self.triggers@, turn_phase).len() + (if in_play { 0int } else { 1int }),
            forall|k: int| 0 <= k < ability_positions(self.triggers@, turn_phase).len() ==> {
                let i = ability_positions(self.triggers@, turn_phase)[k];
                is_trigger_ability(#[trigger] r@[k], self.triggers@[i], *self, turn_phase, in_play, owner, current_player_is_owner,
                    match requirements { Some(v) => Some(v@[i]), None => None })
            },
            !in_play ==> is_play_ability(r@.last(), *self, turn_phase, owner, current_player_is_owner),
    {
        let mut abilities: Vec<AbilityDetails> = Vec::new();
        let player_id: Option<String> = match owner {
            Some(o) => Some(o.name.clone()),
            None => None,
        };
        let mut i: usize = 0;
        while i < self.triggers.len()
            invariant
                i <= self.triggers@.len(),
                opt_chars(player_id) == owner_name(owner),
                match requirements {
                    Some(v) => v@.len() == self.triggers@.len(),
                    None => true,
                },
                owner_counts_costs(*self, owner),
                abilities@.len() == ability_positions(self.triggers@.subrange(0, i as int), turn_phase).len(),
                forall|k: int| 0 <= k < abilities@.len() ==> {
                    let j = ability_positions(self.triggers@.subrange(0, i as int), turn_phase)[k];
                    is_trigger_ability(#[trigger] abilities@[k], self.triggers@[j], *self, turn_phase, in_play, owner, current_player_is_owner,
                        match requirements { Some(v) => Some(v@[j]), None => None })
                },
            decreases self.triggers@.len() - i,
        {
            let ghost before = abilities@;
            let ghost pre = self.triggers@.subrange(0, i as int);
            proof {
                assert(self.triggers@.subrange(0, i as int + 1).drop_last() =~= pre);
                lemma_ability_positions(pre, turn_phase);
            }
            let trigger = &self.triggers[i];
            match &trigger.trigger_type {
                ActionTriggerType::Attached => {
                    if turn_phase == TurnPhase::Main {
                        abilities.push(AbilityDetails {
                            id: trigger.id.clone(),
                            action_type: ActionType::Attach,
                            mana_cost: Vec::new(),
                            required_target: trigger.card_required_target,
                            description: "Attach".to_string(),
                            show: in_play,
                            meets_requirements_except_mana: in_play,
                            meets_mana_requirements: true,
                            can_pay_mana: true,
                            owner_player_id: player_id.clone(),
                            tap_required: false,
                            action: Some(trigger.action.copy()),
                        });
                    }
                },
                ActionTriggerType::AbilityWithinPhases(description, required_mana, phase_restrictions, required_tap, _) => {
                    let is_owner = match current_player_is_owner {
                        Some(b) => b,
                        None => false,
                    };
                    let main_phase_restriction = match phase_restrictions {
                        Some((phases, _)) => phases_contain(phases, TurnPhase::Main) || phases_contain(phases, TurnPhase::Main2),
                        None => false,
                    };
                    let within_phase = match phase_restrictions {
                        Some((phases, target)) => phases_contain(phases, turn_phase) && match target {
                            PhaseTarget::Owner => is_owner,
                            PhaseTarget::Opponent => !is_owner,
                            PhaseTarget::Any => true,
                        },
                        None => true,
                    };
                    proof {
                        assert(match self.triggers@[i as int].trigger_type {
                            ActionTriggerType::AbilityWithinPhases(_, m, _, _, _) => mana_arith_ok(owner.unwrap().mana_pool, m@),
                            _ => true,
                        } || owner.is_none());
                    }
                    let can_pay_mana = match owner {
                        Some(o) => o.can_pay_mana(required_mana),
                        None => false,
                    };
                    let meets_mana_requirements = match owner {
                        Some(o) => o.has_required_mana(required_mana),
                        None => false,
                    };
                    let mut meets_requirements_except_mana = within_phase
                        && in_play
                        && ((!self.tapped && self.current_phase == CardPhase::Ready) || !*required_tap);
                    match requirements {
                        Some(v) => {
                            meets_requirements_except_mana = meets_requirements_except_mana && v[i];
                        },
                        None => {},
                    }
                    abilities.push(AbilityDetails {
                        id: trigger.id.clone(),
                        mana_cost: copy_mana(required_mana),
                        required_target: trigger.card_required_target,
                        description: description.clone(),
                        action_type: if *required_tap { ActionType::Tap } else { ActionType::Instant },
                        show: meets_requirements_except_mana || phase_restrictions.is_none() || main_phase_restriction,
                        meets_requirements_except_mana,
                        meets_mana_requirements,
                        can_pay_mana,
                        owner_player_id: player_id.clone(),
                        tap_required: *required_tap,
                        action: Some(trigger.action.copy()),
                    });
                },
                _ => {},
            }
            proof {
                let post = self.triggers@.subrange(0, i as int + 1);
                assert(post.last() == self.triggers@[i as int]);
                assert forall|k: int| 0 <= k < abilities@.len() implies {
                    let j = ability_positions(post, turn_phase)[k];
                    is_trigger_ability(#[trigger] abilities@[k], self.triggers@[j], *self, turn_phase, in_play, owner, current_player_is_owner,
                        match requirements { Some(v) => Some(v@[j]), None => None })
                } by {
                    if k < before.len() {
                        assert(abilities@[k] == before[k]);
                        assert(ability_positions(post, turn_phase)[k] == ability_positions(pre, turn_phase)[k]);
                    }
                }
            }
            i = i + 1;
        }
        proof {
            assert(self.triggers@.subrange(0, self.triggers@.len() as int) =~= self.triggers@);
        }
        if !in_play {
            let is_owner = match current_player_is_owner {
                Some(b) => b,
                None => true,
            };
            let within_phase = match &self.play_restrictions {
                Some((phases, target)) => phases_contain(phases, turn_phase) && match target {
                    PhaseTarget::Owner => is_owner,
                    PhaseTarget::Opponent => !is_owner,
                    PhaseTarget::Any => true,
                },
                None => true,
            };
            let meets_mana_requirements = match owner {
                Some(o) => o.has_required_mana(&self.cost),
                None => false,
            };
            let can_pay_mana = match owner {
                Some(o) => o.can_pay_mana(&self.cost),
                None => false,
            };
            let ghost before = abilities@;
            abilities.push(AbilityDetails {
                id: "play_card".to_string(),
                action_type: ActionType::PlayedCard,
                mana_cost: Vec::new(),
                required_target: CardRequiredTarget::NoTarget,
                description: "Play".to_string(),
                show: false,
                meets_requirements_except_mana: within_phase,
                meets_mana_requirements,
                can_pay_mana,
                owner_player_id: player_id,
                tap_required: false,
                action: Some(CardAction::PlayCard(PlayCardAction {})),
            });
            proof {
                assert forall|k: int| 0 <= k < before.len() implies abilities@[k] == before[k] by {}
            }
        }
        abilities
    }

    /// A card in its starting state, under a freshly generated id.
    pub fn new(
        name: &str,
        description: &str,
        triggers: Vec<CardActionTrigger>,
        phase: CardPhase,
        card_type: CardType,
        stats: Vec<Stat>,
        cost: Vec<ManaType>,
        play_restrictions: Option<(Vec<TurnPhase>, PhaseTarget)>,
    ) -> (card: Self)
        ensures
            card.name@ == name@,
            card.description@ == description@,
            card.triggers == triggers,
            card.current_phase == phase,
            card.card_type == card_type,
            card.cost == cost,
            card.play_restrictions == play_restrictions,
            card.stats.wf(),
            card.stats.listeners@.len() == 0,
            exists|ids: Seq<Seq<char>>| ids.len() == stats@.len()
                && card.stats.as_map() == crate::stat::insert_all(Map::empty(), ids, stats@),
            card.id@.len() == 26,
            card.creature_type.is_none(),
            card.target.is_none(),
            !card.tapped,
            card.owner.is_none(),
            card.attached.is_none(),
            card.damage_taken == 0,
            card.damage_dealt_to_players == 0,
            !card.is_countered,
            card.counters@.len() == 0,
    {
        Card {
            id: crate::rng::new_ulid(),
            creature_type: None,
            name: name.to_string(),
            description: description.to_string(),
            tapped: false,
            card_type,
            triggers,
            current_phase: phase,
            target: None,
            stats: StatManager::new(stats),
            cost,
            owner: None,
            attached: None,
            damage_taken: 0,
            damage_dealt_to_players: 0,
            is_countered: false,
            counters: Vec::new(),
            play_restrictions,
        }
    }

    /// A copy of this card.
    pub fn copy(&self) -> (c: Card)
        ensures
            same_card(c, *self),
    {
        let play_restrictions = match &self.play_restrictions {
            None => None,
            Some((p, w)) => Some((copy_phases(p), *w)),
        };
        let mut counters: Vec<(String, Counter)> = Vec::new();
        let mut i: usize = 0;
        while i < self.counters.len()
            invariant
                i <= self.counters@.len(),
                counters@.len() == i,
                forall|j: int| 0 <= j < i ==> (#[trigger] counters@[j]).0@ == self.counters@[j].0@ && counters@[j].1 == self.counters@[j].1,
            decreases self.counters@.len() - i,
        {
            let k = self.counters[i].0.clone();
            let c = self.counters[i].1;
            counters.push((k, c));
            i = i + 1;
        }
        proof {
            assert(counters_view(counters@) =~= counters_view(self.counters@));
        }
        Card {
            play_restrictions,
            creature_type: self.creature_type,
            name: self.name.clone(),
            description: self.description.clone(),
            card_type: self.card_type,
            current_phase: self.current_phase,
            target: copy_opt_target(&self.target),
            tapped: self.tapped,
            stats: self.stats.copy(),
            triggers: copy_triggers(&self.triggers),
            cost: copy_mana(&self.cost),
            owner: match &self.owner { None => None, Some(o) => Some(o.clone()) },
            attached: match &self.attached { None => None, Some(o) => Some(o.clone()) },
            damage_dealt_to_players: self.damage_dealt_to_players,
            damage_taken: self.damage_taken,
            is_countered: self.is_countered,
            id: self.id.clone(),
            counters,
        }
    }

    /// A card can be tapped when it is ready and not already tapped.
    pub fn is_tappable(&self) -> (b: bool)
        ensures
            b == (self.current_phase == CardPhase::Ready && !self.tapped),
    {
        if self.current_phase != CardPhase::Ready {
            return false;
        }
        if self.tapped {
            return false;
        }
        return true;
    }

    /// Taps the card; refused when the card is not ready or already tapped.
    pub fn tap(&mut self) -> (r: Result<(), &'static str>)
        ensures
            old(self).current_phase != CardPhase::Ready ==> r == Err::<(), &'static str>("Card is not ready") && *final(self) == *old(self),
            old(self).current_phase == CardPhase::Ready && old(self).tapped ==> r == Err::<(), &'static str>("Card already tapped") && *final(self) == *old(self),
            old(self).current_phase == CardPhase::Ready && !old(self).tapped ==> r is Ok && final(self).tapped
                && *final(self) == (Card { tapped: true, ..*old(self) }),
    {
        if self.current_phase != CardPhase::Ready {
            return Err("Card is not ready");
        }
        if self.tapped {
            return Err("Card already tapped");
        }
        self.tapped = true;
        Ok(())
    }

    /// Untaps the card.
    pub fn untap(&mut self)
        ensures
            *final(self) == (Card { tapped: false, ..*old(self) }),
    {
        self.tapped = false;
    }

    /// A card is useless when none of its triggers keeps it useful and no
    /// effect stems from it.
    pub fn is_useless(&self, has_effects: bool) -> (b: bool)
        ensures
            b == card_useless(*self, has_effects),
    {
        let mut count: usize = 0;
        let mut i: usize = 0;
        while i < self.triggers.len()
            invariant
                i <= self.triggers@.len(),
                count <= i,
                (count > 0) == exists|j: int| 0 <= j < i && keeps_card_useful(#[trigger] self.triggers@[j].trigger_type),
            decreases self.triggers@.len() - i,
        {
            let useful = match &self.triggers[i].trigger_type {
                ActionTriggerType::AbilityWithinPhases(_, _, _, _, _) => true,
                ActionTriggerType::PhaseStarted(_, _) => true,
                ActionTriggerType::CreatureTypeCardPlayed(_, _) => true,
                ActionTriggerType::Attached => true,
                ActionTriggerType::DamageApplied => true,
                ActionTriggerType::OtherCardPlayed(_) => true,
                ActionTriggerType::OtherCardDestroyed(_) => true,
                ActionTriggerType::CardExiled => true,
                ActionTriggerType::PlayerStatChanged(_) => true,
                ActionTriggerType::CardStatChanged => true,
                ActionTriggerType::OtherCardExiled(_) => true,
                ActionTriggerType::CardEnteredBattlefield => false,
                ActionTriggerType::Omnipresent => false,
                ActionTriggerType::Detached => false,
                ActionTriggerType::CardDestroyed => false,
            };
            assert(useful == keeps_card_useful(self.triggers@[i as int].trigger_type));
            if useful {
                count = count + 1;
            }
            i = i + 1;
        }
        let has_triggers = count > 0;
        !has_triggers && !has_effects
    }

    /// The cost rendered as its tokens joined by single spaces, a run of
    /// generic mana shown as a count such as `{2C}`.
    pub fn format_mana_cost(&self) -> (s: String)
        requires
            self.cost@.len() < 0x1_0000_0000,
        ensures
            s@ == join_groups(cost_tokens(self.cost@)),
    {
        proof {
            reveal_strlit(" ");
            reveal_strlit("{");
            reveal_strlit("C}");
        }
        let mut formatted = String::new();
        let mut colorless_count: u64 = 0;
        let ghost mut tokens: Seq<Seq<char>> = Seq::empty();
        let mut any = false;
        let mut i: usize = 0;
        while i < self.cost.len()
            invariant
                i <= self.cost@.len(),
                self.cost@.len() < 0x1_0000_0000,
                colorless_count <= i,
                cost_scan(self.cost@.subrange(0, i as int)) == (tokens, colorless_count as nat),
                formatted@ == join_groups(tokens),
                any == (tokens.len() > 0),
            decreases self.cost@.len() - i,
        {
            proof {
                assert(self.cost@.subrange(0, i as int + 1).drop_last() =~= self.cost@.subrange(0, i as int));
            }
            proof {
                reveal_strlit(" ");
                reveal_strlit("{");
                reveal_strlit("C}");
            }
            let mana = self.cost[i];
            match mana {
                ManaType::Colorless => {
                    colorless_count = colorless_count + 1;
                }
                _ => {
                    if colorless_count > 0 {
                        let ghost t0 = tokens;
                        if any {
                            formatted.append(" ");
                        }
                        formatted.append("{");
                        push_decimal(&mut formatted, colorless_count);
                        formatted.append("C}");
                        proof {
                            crate::mana::lemma_join_push(t0, generic_token(colorless_count as nat));
                            tokens = t0.push(generic_token(colorless_count as nat));
                            if t0.len() > 0 {
                                assert(formatted@ =~= join_groups(t0) + seq![' '] + generic_token(colorless_count as nat));
                            } else {
                                assert(formatted@ =~= generic_token(colorless_count as nat));
                            }
                        }
                        colorless_count = 0;
                        any = true;
                    }
                    let ghost t1 = tokens;
                    if any {
                        formatted.append(" ");
                    }
                    let sym = mana.format();
                    formatted.append(sym.as_str());
                    proof {
                        crate::mana::lemma_join_push(t1, mana_symbol(mana));
                        tokens = t1.push(mana_symbol(mana));
                    }
                    any = true;
                }
            }
            i = i + 1;
        }
        if colorless_count > 0 {
            let ghost t0 = tokens;
            if any {
                formatted.append(" ");
            }
            formatted.append("{");
            push_decimal(&mut formatted, colorless_count);
            formatted.append("C}");
            proof {
                crate::mana::lemma_join_push(t0, generic_token(colorless_count as nat));
                if t0.len() > 0 {
                    assert(formatted@ =~= join_groups(t0) + seq![' '] + generic_token(colorless_count as nat));
                } else {
                    assert(formatted@ =~= generic_token(colorless_count as nat));
                }
            }
        }
        proof {
            assert(self.cost@.subrange(0, self.cost@.len() as int) =~= self.cost@);
        }
        formatted
    }
}

/// Builds a card step by step.
pub struct CardBuilder {
    pub name: String,
    pub description: String,
    pub actions: Vec<CardActionTrigger>,
    pub mana_cost: Vec<ManaType>,
    pub card_type: CardType,
    pub phase: CardPhase,
    pub stats: Vec<Stat>,
    pub creature_type: Option<CreatureType>,
    pub play_restrictions: Option<(Vec<TurnPhase>, PhaseTarget)>,
}

/// The phases a sorcery-speed card may be played in by its owner.
pub open spec fn main_phases() -> Seq<TurnPhase> {
    seq![TurnPhase::Main, TurnPhase::Main2]
}

impl CardBuilder {
    /// An unnamed sorcery with no cost, ready, playable by its owner in the main phases.
    pub fn new() -> (b: Self)
        ensures
            b.name@.len() == 0,
            b.description@.len() == 0,
            b.actions@.len() == 0,
            b.mana_cost@.len() == 0,
            b.card_type == CardType::Sorcery,
            b.phase == CardPhase::Ready,
            b.stats@.len() == 0,
            b.creature_type.is_none(),
            b.play_restrictions matches Some((p, w)) && p@ == main_phases() && w == PhaseTarget::Owner,
    {
        let mut phases: Vec<TurnPhase> = Vec::new();
        phases.push(TurnPhase::Main);
        phases.push(TurnPhase::Main2);
        assert(phases@ =~= main_phases());
        Self {
            name: String::new(),
            description: String::new(),
            actions: Vec::new(),
            mana_cost: Vec::new(),
            card_type: CardType::Sorcery,
            phase: CardPhase::Ready,
            stats: Vec::new(),
            creature_type: None,
            play_restrictions: Some((phases, PhaseTarget::Owner)),
        }
    }

    pub fn name(self, name: &str) -> (b: Self)
        ensures
            b.name@ == name@,
            b == (CardBuilder { name: b.name, ..self }),
    {
        CardBuilder { name: name.to_string(), ..self }
    }

    pub fn description(self, description: &str) -> (b: Self)
        ensures
            b.description@ == description@,
            b == (CardBuilder { description: b.description, ..self }),
    {
        CardBuilder { description: description.to_string(), ..self }
    }

    /// Appends the trigger the action builder describes.
    pub fn add_action(self, action: ActionBuilder) -> (b: Self)
        requires
            action.action.is_some(),
        ensures
            b.actions@.len() == self.actions@.len() + 1,
            b.actions@.drop_last() == self.actions@,
            b.actions@.last().trigger_type == action.trigger_type,
            b.actions@.last().card_required_target == action.target,
            b.actions@.last().action == action.action.unwrap(),
            b == (CardBuilder { actions: b.actions, ..self }),
    {
        let mut s = self;
        let t = action.build();
        s.actions.push(t);
        assert(s.actions@.drop_last() =~= self.actions@);
        s
    }

    pub fn play_restrictions(self, phases: Vec<TurnPhase>, player: PhaseTarget) -> (b: Self)
        ensures
            b == (CardBuilder { play_restrictions: Some((phases, player)), ..self }),
    {
        CardBuilder { play_restrictions: Some((phases, player)), ..self }
    }

    pub fn mana_cost(self, mana: Vec<ManaType>) -> (b: Self)
        ensures
            b == (CardBuilder { mana_cost: mana, ..self }),
    {
        CardBuilder { mana_cost: mana, ..self }
    }

    pub fn card_type(self, card_type: CardType) -> (b: Self)
        ensures
            b == (CardBuilder { card_type, ..self }),
    {
        CardBuilder { card_type, ..self }
    }

    pub fn phase(self, phase: CardPhase) -> (b: Self)
        ensures
            b == (CardBuilder { phase, ..self }),
    {
        CardBuilder { phase, ..self }
    }

    /// The card; the creature type set on the builder is not carried over.
    pub fn build(self) -> (card: Card)
        ensures
            card.name == self.name,
            card.description == self.description,
            card.triggers == self.actions,
            card.current_phase == self.phase,
            card.card_type == self.card_type,
            card.cost == self.mana_cost,
            card.play_restrictions == self.play_restrictions,
            card.stats.wf(),
            exists|ids: Seq<Seq<char>>| ids.len() == self.stats@.len()
                && card.stats.as_map() == crate::stat::insert_all(Map::empty(), ids, self.stats@),
            card.id@.len() == 26,
            card.creature_type.is_none(),
            card.target.is_none(),
            !card.tapped,
            card.owner.is_none(),
            card.attached.is_none(),
            card.damage_taken == 0,
            card.damage_dealt_to_players == 0,
            !card.is_countered,
            card.counters@.len() == 0,
    {
        let mut card = Card::new(
            self.name.as_str(),
            self.description.as_str(),
            self.actions,
            self.phase,
            self.card_type,
            self.stats,
            self.mana_cost,
            self.play_restrictions,
        );
        card.name = self.name;
        card.description = self.description;
        card
    }

    /// Makes the card a creature with the given power and toughness, able to
    /// attack in its owner's declare-attackers phase and to block in any
    /// declare-blockers phase.
    pub fn creature(self, power: i16, toughness: i16) -> (b: Self)
        ensures
            b.stats@ == self.stats@.push(Stat { stat_type: StatType::Power, intensity: power })
                .push(Stat { stat_type: StatType::Toughness, intensity: toughness }),
            b.card_type == CardType::Creature,
            b.actions@.len() == self.actions@.len() + 2,
            b.actions@.subrange(0, self.actions@.len() as int) == self.actions@,
            b.actions@[self.actions@.len() as int].trigger_type matches ActionTriggerType::AbilityWithinPhases(d, m, Some((p, w)), true, CardRequiredTarget::EnemyCardOrPlayer)
                && d@ == seq!['A', 't', 't', 'a', 'c', 'k'] && m@.len() == 0 && p@ == seq![TurnPhase::DeclareAttackers] && w == PhaseTarget::Owner,
            b.actions@[self.actions@.len() as int + 1].trigger_type matches ActionTriggerType::AbilityWithinPhases(d, m, Some((p, w)), true, CardRequiredTarget::EnemyCardInCombat)
                && d@ == seq!['B', 'l', 'o', 'c', 'k'] && m@.len() == 0 && p@ == seq![TurnPhase::DeclareBlockers] && w == PhaseTarget::Any,
            b.actions@[self.actions@.len() as int].action == CardAction::DeclareAttacker(DeclareAttackerAction {}),
            b.actions@[self.actions@.len() as int + 1].action == CardAction::DeclareAttacker(DeclareAttackerAction {}),
            b.name == self.name,
            b.description == self.description,
            b.mana_cost == self.mana_cost,
            b.phase == self.phase,
            b.creature_type == self.creature_type,
            b.play_restrictions == self.play_restrictions,
    {
        proof {
            reveal_strlit("Attack");
            reveal_strlit("Block");
        }
        let mut s = self;
        s.stats.push(Stat::new(StatType::Power, power));
        s.stats.push(Stat::new(StatType::Toughness, toughness));
        s = s.card_type(CardType::Creature);
        let mut attack_phases: Vec<TurnPhase> = Vec::new();
        attack_phases.push(TurnPhase::DeclareAttackers);
        let mut block_phases: Vec<TurnPhase> = Vec::new();
        block_phases.push(TurnPhase::DeclareBlockers);
        assert(attack_phases@ =~= seq![TurnPhase::DeclareAttackers]);
        assert(block_phases@ =~= seq![TurnPhase::DeclareBlockers]);
        let ghost a0 = s.actions@;
        s = s.add_action(
            ActionBuilder::new(ActionTriggerType::AbilityWithinPhases(
                "Attack".to_string(),
                Vec::new(),
                Some((attack_phases, PhaseTarget::Owner)),
                true,
                CardRequiredTarget::EnemyCardOrPlayer,
            ))
            .action(CardAction::DeclareAttacker(DeclareAttackerAction {})),
        );
        let ghost a1 = s.actions@;
        s = s.add_action(
            ActionBuilder::new(ActionTriggerType::AbilityWithinPhases(
                "Block".to_string(),
                Vec::new(),
                Some((block_phases, PhaseTarget::Any)),
                true,
                CardRequiredTarget::EnemyCardInCombat,
            ))
            .action(CardAction::DeclareAttacker(DeclareAttackerAction {})),
        );
        proof {
            assert(a1.drop_last() == a0);
            assert(s.actions@.drop_last() == a1);
            assert(s.actions@.subrange(0, self.actions@.len() as int) =~= self.actions@);
            assert(s.actions@[self.actions@.len() as int] == a1.last());
        }
        s
    }

    /// A creature of the given tribe; see `creature`.
    pub fn creature_of_type(self, power: i16, toughness: i16, creature_type: CreatureType) -> (b: Self)
        ensures
            b.stats@ == self.stats@.push(Stat { stat_type: StatType::Power, intensity: power })
                .push(Stat { stat_type: StatType::Toughness, intensity: toughness }),
            b.card_type == CardType::Creature,
            b.actions@.len() == self.actions@.len() + 2,
            b.actions@.subrange(0, self.actions@.len() as int) == self.actions@,
            b.creature_type == Some(creature_type),
            b.name == self.name,
            b.description == self.description,
            b.mana_cost == self.mana_cost,
            b.phase == self.phase,
            b.play_restrictions == self.play_restrictions,
    {
        let mut s = self.creature(power, toughness);
        s.creature_type = Some(creature_type);
        s
    }
}


impl Stats for Card {
    open spec fn stat_manager(&self) -> StatManager {
        self.stats
    }

    fn add_stat(&mut self, id: String, stat: Stat)
        ensures
            final(self).id == old(self).id,
            final(self).triggers == old(self).triggers,
            final(self).card_type == old(self).card_type,
    {
        self.stats.add_stat(id, stat);
    }

    fn remove_stat(&mut self, id: String)
        ensures
            final(self).id == old(self).id,
            final(self).triggers == old(self).triggers,
            final(self).card_type == old(self).card_type,
    {
        self.stats.remove_stat(id);
    }

    fn get_stat_value(&self, stat_type: StatType) -> (v: i16) {
        self.stats.get_stat_value(stat_type)
    }

    fn modify_stat(&mut self, stat_type: StatType, intensity: i16)
        ensures
            final(self).id == old(self).id,
            final(self).triggers == old(self).triggers,
            final(self).card_type == old(self).card_type,
    {
        self.stats.modify_stat(stat_type, intensity);
    }
}

} // verus!

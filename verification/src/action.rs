//! Actions that cards and players carry, the events that trigger them, and the
//! targets they ask for.
use vstd::prelude::*;
use crate::card::{CardType, CreatureType};
use crate::mana::ManaType;
use crate::stat::{Stat, StatType};
use crate::turn::TurnPhase;
use crate::game::{ActionType, FrontendTarget, same_opt_target};
use crate::card::same_opt_str;

verus! {

/// Whose phase a phase restriction speaks of.
#[derive(Debug, Clone, Copy, PartialEq, Eq, Structural)]
pub enum PhaseTarget {
    Owner,
    Opponent,
    Any,
}

/// Which side of the table a target may be on.
#[derive(Debug, Clone, Copy, PartialEq, Eq, Structural)]
pub enum CardTargetTeam {
    Owner,
    Opponent,
    Any,
}

/// What an ability needs to be pointed at.
#[derive(Debug, Clone, Copy, PartialEq, Eq, Structural)]
pub enum CardRequiredTarget {
    NoTarget,
    OwnedCard,
    AnyPlayer,
    AnyCard,
    EnemyCard,
    EnemyPlayer,
    EnemyCardOrPlayer,
    CardOfType(CardType, CardTargetTeam, Option<bool>),
    BasicLand(CardTargetTeam, Option<bool>),
    CreatureOfType(CreatureType, CardTargetTeam, Option<bool>),
    EnemyCardInCombat,
    Spell,
    MultipleCardsOfType(CardType, i16),
    CreatureWithPowerAndToughness(i16, i16, CardTargetTeam),
}

/// Whom a card action is applied to.
#[derive(Debug, Clone, Copy, PartialEq, Eq, Structural)]
pub enum CardActionTarget {
    SelfCard,
    SelfOwner,
    CardTarget,
    FrontendTarget,
}

/// Whom a player action is applied to.
#[derive(Debug, Clone, Copy, PartialEq, Eq, Structural)]
pub enum PlayerActionTarget {
    Owner,
    Opponent,
}

/// Whether an action is fired by hand or by the turn structure.
#[derive(Debug, Clone, Copy, PartialEq, Eq, Structural)]
pub enum CardActionType {
    Manual,
    PhaseBased,
}

/// The event that fires an action.
#[derive(Debug, Clone, PartialEq)]
pub enum ActionTriggerType {
    CardEnteredBattlefield,
    CardDestroyed,
    CardStatChanged,
    CardExiled,
    OtherCardExiled(PhaseTarget),
    /// Description, mana cost, allowed phases and whose, whether a tap is needed,
    /// and the target the ability asks for.
    AbilityWithinPhases(String, Vec<ManaType>, Option<(Vec<TurnPhase>, PhaseTarget)>, bool, CardRequiredTarget),
    PhaseStarted(Vec<TurnPhase>, PhaseTarget),
    OtherCardPlayed(PhaseTarget),
    OtherCardDestroyed(PhaseTarget),
    CreatureTypeCardPlayed(PhaseTarget, CreatureType),
    DamageApplied,
    PlayerStatChanged(StatType),
    Attached,
    Detached,
    Omnipresent,
}

/// Two phase lists hold the same phases in the same order.
pub open spec fn same_restrictions(a: Option<(Vec<TurnPhase>, PhaseTarget)>, b: Option<(Vec<TurnPhase>, PhaseTarget)>) -> bool {
    match (a, b) {
        (None, None) => true,
        (Some(x), Some(y)) => x.0@ == y.0@ && x.1 == y.1,
        _ => false,
    }
}

/// Two trigger types are the same event with the same data.
pub open spec fn same_trigger_type(a: ActionTriggerType, b: ActionTriggerType) -> bool {
    match (a, b) {
        (ActionTriggerType::AbilityWithinPhases(d1, m1, r1, t1, g1),
         ActionTriggerType::AbilityWithinPhases(d2, m2, r2, t2, g2)) =>
            d1@ == d2@ && m1@ == m2@ && same_restrictions(r1, r2) && t1 == t2 && g1 == g2,
        (ActionTriggerType::PhaseStarted(p1, w1), ActionTriggerType::PhaseStarted(p2, w2)) =>
            p1@ == p2@ && w1 == w2,
        (ActionTriggerType::AbilityWithinPhases(..), _) => false,
        (_, ActionTriggerType::AbilityWithinPhases(..)) => false,
        (ActionTriggerType::PhaseStarted(..), _) => false,
        (_, ActionTriggerType::PhaseStarted(..)) => false,
        (x, y) => x == y,
    }
}

/// Whether `phases` holds `phase`.
pub fn phases_contain(phases: &Vec<TurnPhase>, phase: TurnPhase) -> (r: bool)
    ensures
        r == phases@.contains(phase),
{
    let mut i: usize = 0;
    while i < phases.len()
        invariant
            i <= phases@.len(),
            forall|j: int| 0 <= j < i ==> phases@[j] != phase,
        decreases phases@.len() - i,
    {
        if phases[i] == phase {
            assert(phases@[i as int] == phase);
            return true;
        }
        i = i + 1;
    }
    false
}

/// A copy of a list of phases.
pub fn copy_phases(p: &Vec<TurnPhase>) -> (r: Vec<TurnPhase>)
    ensures
        r@ == p@,
{
    let mut r: Vec<TurnPhase> = Vec::new();
    let mut i: usize = 0;
    while i < p.len()
        invariant
            i <= p@.len(),
            r@ == p@.subrange(0, i as int),
        decreases p@.len() - i,
    {
        r.push(p[i]);
        i = i + 1;
        proof { assert(r@ =~= p@.subrange(0, i as int)); }
    }
    proof { assert(p@.subrange(0, p@.len() as int) =~= p@); }
    r
}

/// A copy of a mana cost.
pub fn copy_mana(p: &Vec<ManaType>) -> (r: Vec<ManaType>)
    ensures
        r@ == p@,
{
    let mut r: Vec<ManaType> = Vec::new();
    let mut i: usize = 0;
    while i < p.len()
        invariant
            i <= p@.len(),
            r@ == p@.subrange(0, i as int),
        decreases p@.len() - i,
    {
        r.push(p[i]);
        i = i + 1;
        proof { assert(r@ =~= p@.subrange(0, i as int)); }
    }
    proof { assert(p@.subrange(0, p@.len() as int) =~= p@); }
    r
}

impl ActionTriggerType {
    /// A copy of this trigger type.
    pub fn copy(&self) -> (r: ActionTriggerType)
        ensures
            same_trigger_type(r, *self),
    {
        match self {
            ActionTriggerType::CardEnteredBattlefield => ActionTriggerType::CardEnteredBattlefield,
            ActionTriggerType::CardDestroyed => ActionTriggerType::CardDestroyed,
            ActionTriggerType::CardStatChanged => ActionTriggerType::CardStatChanged,
            ActionTriggerType::CardExiled => ActionTriggerType::CardExiled,
            ActionTriggerType::OtherCardExiled(t) => ActionTriggerType::OtherCardExiled(*t),
            ActionTriggerType::AbilityWithinPhases(d, m, r, t, g) => {
                let r2 = match r {
                    None => None,
                    Some((p, w)) => Some((copy_phases(p), *w)),
                };
                ActionTriggerType::AbilityWithinPhases(d.clone(), copy_mana(m), r2, *t, *g)
            },
            ActionTriggerType::PhaseStarted(p, w) => ActionTriggerType::PhaseStarted(copy_phases(p), *w),
            ActionTriggerType::OtherCardPlayed(t) => ActionTriggerType::OtherCardPlayed(*t),
            ActionTriggerType::OtherCardDestroyed(t) => ActionTriggerType::OtherCardDestroyed(*t),
            ActionTriggerType::CreatureTypeCardPlayed(t, c) => ActionTriggerType::CreatureTypeCardPlayed(*t, *c),
            ActionTriggerType::DamageApplied => ActionTriggerType::DamageApplied,
            ActionTriggerType::PlayerStatChanged(s) => ActionTriggerType::PlayerStatChanged(*s),
            ActionTriggerType::Attached => ActionTriggerType::Attached,
            ActionTriggerType::Detached => ActionTriggerType::Detached,
            ActionTriggerType::Omnipresent => ActionTriggerType::Omnipresent,
        }
    }
}

/// Returns a card to its fresh state.
#[derive(Debug, Clone, Copy, PartialEq, Eq, Structural)]
pub struct ResetCardAction {}

/// Moves a card onto the battlefield, or to the graveyard when it was countered.
#[derive(Debug, Clone, Copy, PartialEq, Eq, Structural)]
pub struct PlayCardAction {}

/// Marks the targeted spell as countered.
#[derive(Debug, Clone, Copy, PartialEq, Eq, Structural)]
pub struct CounterSpellAction {}

/// Returns the targeted card to its owner's hand.
#[derive(Debug, Clone, Copy, PartialEq, Eq, Structural)]
pub struct ReturnToHandAction {}

/// A stat to add under an id.
#[derive(Debug, Clone, PartialEq)]
pub struct ApplyStat {
    pub amount: i16,
    pub id: String,
    pub stat_type: StatType,
}

/// Empties the owner's mana pool.
#[derive(Debug, Clone, Copy, PartialEq, Eq, Structural)]
pub struct ResetManaPoolAction {}

/// Untaps every card the owner has in play.
#[derive(Debug, Clone, Copy, PartialEq, Eq, Structural)]
pub struct UntapAllAction {}

/// The owner draws a card.
#[derive(Debug, Clone, Copy, PartialEq, Eq, Structural)]
pub struct DrawCardAction {}

/// Deals the card's power, less the target player's toughness, to that player.
#[derive(Debug, Clone, Copy, PartialEq, Eq, Structural)]
pub struct CardDamageAction {}

/// Destroys the card that carries the action.
#[derive(Debug, Clone, Copy, PartialEq, Eq, Structural)]
pub struct DestroySelf {}

/// Destroys the targeted card.
#[derive(Debug, Clone, Copy, PartialEq, Eq, Structural)]
pub struct DestroyTargetCAction {}

/// Declares the card as a blocker of the targeted attacker.
#[derive(Debug, Clone, Copy, PartialEq, Eq, Structural)]
pub struct DeclareBlockerAction {}

/// Resolves combat.
#[derive(Debug, Clone, Copy, PartialEq, Eq, Structural)]
pub struct CombatAction {}

/// Declares the card as an attacker of the target.
#[derive(Debug, Clone, Copy, PartialEq, Eq, Structural)]
pub struct DeclareAttackerAction {}

/// Does nothing.
#[derive(Debug, Clone, Copy, PartialEq, Eq, Structural)]
pub struct BlankAction {}

/// Taps the card.
#[derive(Debug, Clone, Copy, PartialEq, Eq, Structural)]
pub struct TapCardAction {}

/// The owner draws `count` cards.
#[derive(Debug, Clone, Copy, PartialEq, Eq, Structural)]
pub struct DrawCardCardAction {
    pub target: CardActionTarget,
    pub count: i16,
}

impl DrawCardCardAction {
    /// Draw one card.
    pub fn one(target: CardActionTarget) -> (a: Self)
        ensures
            a == (DrawCardCardAction { target, count: 1 }),
    {
        DrawCardCardAction { target, count: 1 }
    }
}

/// The owner gains as much life as the card dealt to players, when the card has lifelink.
#[derive(Debug, Clone, Copy, PartialEq, Eq, Structural)]
pub struct LifeLinkAction {}

/// Adds a stat to the card under an id.
#[derive(Debug, Clone, PartialEq)]
pub struct CardAddStatAction {
    pub stat: Stat,
    pub id: String,
}

/// Adds mana to the owner's pool.
#[derive(Debug, Clone, PartialEq)]
pub struct GenerateManaAction {
    pub mana_to_add: Vec<ManaType>,
    pub target: PlayerActionTarget,
}

/// The action a card trigger performs. Actions written as scripts of their own
/// carry the name of the script.
#[derive(Debug, Clone, PartialEq)]
pub enum CardAction {
    ResetCard(ResetCardAction),
    PlayCard(PlayCardAction),
    CounterSpell(CounterSpellAction),
    ReturnToHand(ReturnToHandAction),
    CardDamage(CardDamageAction),
    DestroySelf(DestroySelf),
    DestroyTarget(DestroyTargetCAction),
    DeclareBlocker(DeclareBlockerAction),
    DeclareAttacker(DeclareAttackerAction),
    Blank(BlankAction),
    TapCard(TapCardAction),
    DrawCards(DrawCardCardAction),
    LifeLink(LifeLinkAction),
    AddStat(CardAddStatAction),
    GenerateMana(GenerateManaAction),
    Script(String),
    /// Asks the owner to pay for and aim a further ability: cost, target,
    /// the name of the script the ability runs, description, the kind of
    /// action, and whether the owner may decline.
    CastAdditional(Vec<ManaType>, CardRequiredTarget, String, String, ActionType, bool),
}

/// Two card actions are the same action with the same data.
pub open spec fn same_action(a: CardAction, b: CardAction) -> bool {
    match (a, b) {
        (CardAction::AddStat(x), CardAction::AddStat(y)) => x.stat == y.stat && x.id@ == y.id@,
        (CardAction::GenerateMana(x), CardAction::GenerateMana(y)) => x.mana_to_add@ == y.mana_to_add@ && x.target == y.target,
        (CardAction::Script(x), CardAction::Script(y)) => x@ == y@,
        (CardAction::CastAdditional(m1, t1, x1, d1, a1, o1), CardAction::CastAdditional(m2, t2, x2, d2, a2, o2)) =>
            m1@ == m2@ && t1 == t2 && x1@ == x2@ && d1@ == d2@ && a1 == a2 && o1 == o2,
        (CardAction::AddStat(_), _) | (_, CardAction::AddStat(_)) => false,
        (CardAction::GenerateMana(_), _) | (_, CardAction::GenerateMana(_)) => false,
        (CardAction::Script(_), _) | (_, CardAction::Script(_)) => false,
        (CardAction::CastAdditional(..), _) | (_, CardAction::CastAdditional(..)) => false,
        (x, y) => x == y,
    }
}

impl CardAction {
    /// A copy of this action.
    pub fn copy(&self) -> (r: CardAction)
        ensures
            same_action(r, *self),
    {
        match self {
            CardAction::ResetCard(a) => CardAction::ResetCard(*a),
            CardAction::PlayCard(a) => CardAction::PlayCard(*a),
            CardAction::CounterSpell(a) => CardAction::CounterSpell(*a),
            CardAction::ReturnToHand(a) => CardAction::ReturnToHand(*a),
            CardAction::CardDamage(a) => CardAction::CardDamage(*a),
            CardAction::DestroySelf(a) => CardAction::DestroySelf(*a),
            CardAction::DestroyTarget(a) => CardAction::DestroyTarget(*a),
            CardAction::DeclareBlocker(a) => CardAction::DeclareBlocker(*a),
            CardAction::DeclareAttacker(a) => CardAction::DeclareAttacker(*a),
            CardAction::Blank(a) => CardAction::Blank(*a),
            CardAction::TapCard(a) => CardAction::TapCard(*a),
            CardAction::DrawCards(a) => CardAction::DrawCards(*a),
            CardAction::LifeLink(a) => CardAction::LifeLink(*a),
            CardAction::AddStat(a) => CardAction::AddStat(CardAddStatAction { stat: a.stat, id: a.id.clone() }),
            CardAction::GenerateMana(a) => CardAction::GenerateMana(GenerateManaAction { mana_to_add: copy_mana(&a.mana_to_add), target: a.target }),
            CardAction::Script(s) => CardAction::Script(s.clone()),
            CardAction::CastAdditional(m, t, x, d, a, o) => CardAction::CastAdditional(copy_mana(m), *t, x.clone(), d.clone(), *a, *o),
        }
    }
}

/// An action of a card and the event that fires it.
#[derive(Debug, Clone)]
pub struct CardActionTrigger {
    pub id: String,
    pub trigger_type: ActionTriggerType,
    pub action: CardAction,
    pub card_required_target: CardRequiredTarget,
}

/// Two triggers are the same in every field.
pub open spec fn same_trigger(a: CardActionTrigger, b: CardActionTrigger) -> bool {
    &&& a.id@ == b.id@
    &&& same_trigger_type(a.trigger_type, b.trigger_type)
    &&& same_action(a.action, b.action)
    &&& a.card_required_target == b.card_required_target
}

/// Two trigger lists are the same trigger by trigger.
pub open spec fn same_triggers(a: Seq<CardActionTrigger>, b: Seq<CardActionTrigger>) -> bool {
    a.len() == b.len() && forall|i: int| 0 <= i < a.len() ==> same_trigger(#[trigger] a[i], b[i])
}

impl CardActionTrigger {
    /// A trigger under a freshly generated id.
    pub fn new(trigger_type: ActionTriggerType, card_required_target: CardRequiredTarget, action: CardAction) -> (t: Self)
        ensures
            t.id@.len() == 26,
            t.trigger_type == trigger_type,
            t.card_required_target == card_required_target,
            t.action == action,
    {
        CardActionTrigger { id: crate::rng::new_ulid(), trigger_type, action, card_required_target }
    }

    /// A copy of this trigger.
    pub fn copy(&self) -> (r: CardActionTrigger)
        ensures
            same_trigger(r, *self),
    {
        CardActionTrigger {
            id: self.id.clone(),
            trigger_type: self.trigger_type.copy(),
            action: self.action.copy(),
            card_required_target: self.card_required_target,
        }
    }
}

/// A copy of a list of triggers.
pub fn copy_triggers(t: &Vec<CardActionTrigger>) -> (r: Vec<CardActionTrigger>)
    ensures
        same_triggers(r@, t@),
{
    let mut r: Vec<CardActionTrigger> = Vec::new();
    let mut i: usize = 0;
    while i < t.len()
        invariant
            i <= t@.len(),
            r@.len() == i,
            forall|j: int| 0 <= j < i ==> same_trigger(#[trigger] r@[j], t@[j]),
        decreases t@.len() - i,
    {
        r.push(t[i].copy());
        i = i + 1;
    }
    r
}

/// An action a player carries, fired by the turn structure.
#[derive(Debug, Clone, Copy, PartialEq, Eq, Structural)]
pub enum PlayerAction {
    ResetManaPool(ResetManaPoolAction),
    UntapAll(UntapAllAction),
    DrawCard(DrawCardAction),
    Combat(CombatAction),
}

/// An action of a player and the event that fires it.
#[derive(Debug, Clone)]
pub struct PlayerActionTrigger {
    pub trigger_type: ActionTriggerType,
    pub action: PlayerAction,
}

impl PlayerActionTrigger {
    pub fn new(trigger_type: ActionTriggerType, action: PlayerAction) -> (t: Self)
        ensures
            t.trigger_type == trigger_type,
            t.action == action,
    {
        PlayerActionTrigger { trigger_type, action }
    }
}

/// Builds a card trigger step by step.
pub struct ActionBuilder {
    pub trigger_type: ActionTriggerType,
    pub target: CardRequiredTarget,
    pub action: Option<CardAction>,
}

impl ActionBuilder {
    /// A builder for a trigger of the given type that asks for no target.
    pub fn new(trigger_type: ActionTriggerType) -> (b: Self)
        ensures
            b.trigger_type == trigger_type,
            b.target == CardRequiredTarget::NoTarget,
            b.action.is_none(),
    {
        ActionBuilder { trigger_type, target: CardRequiredTarget::NoTarget, action: None }
    }

    /// Sets the action to a script of the given name.
    pub fn closure_action(self, script: &str) -> (b: Self)
        ensures
            b.trigger_type == self.trigger_type,
            b.target == self.target,
            b.action matches Some(CardAction::Script(s)) && s@ == script@,
    {
        ActionBuilder { action: Some(CardAction::Script(script.to_string())), ..self }
    }

    /// Sets the action.
    pub fn action(self, action: CardAction) -> (b: Self)
        ensures
            b == (ActionBuilder { action: Some(action), ..self }),
    {
        ActionBuilder { action: Some(action), ..self }
    }

    /// Sets the target the ability asks for.
    pub fn target(self, target: CardRequiredTarget) -> (b: Self)
        ensures
            b == (ActionBuilder { target, ..self }),
    {
        ActionBuilder { target, ..self }
    }

    /// The trigger, under a freshly generated id.
    pub fn build(self) -> (t: CardActionTrigger)
        requires
            self.action.is_some(),
        ensures
            t.trigger_type == self.trigger_type,
            t.card_required_target == self.target,
            t.action == self.action.unwrap(),
            t.id@.len() == 26,
    {
        match self.action {
            Some(a) => CardActionTrigger::new(self.trigger_type, self.target, a),
            None => CardActionTrigger::new(self.trigger_type, self.target, CardAction::Blank(BlankAction {})),
        }
    }
}

/// A card's action waiting to be resolved: the card by id, the action, what it
/// is aimed at, and the ability it comes from.
pub struct CardActionWrapper {
    pub card: String,
    pub action: CardAction,
    pub target: Option<FrontendTarget>,
    pub ability_id: Option<String>,
}

/// A player's action waiting to be resolved, the player by seat.
#[derive(Debug, Clone, Copy, PartialEq, Eq, Structural)]
pub struct PlayerActionWrapper {
    pub action: PlayerAction,
    pub player: usize,
}

/// Something waiting on the stack to be resolved.
pub enum GameAction {
    Card(CardActionWrapper),
    Player(PlayerActionWrapper),
}

/// Two pending actions are the same action with the same data.
pub open spec fn same_game_action(a: GameAction, b: GameAction) -> bool {
    match (a, b) {
        (GameAction::Card(x), GameAction::Card(y)) => {
            &&& x.card@ == y.card@
            &&& same_action(x.action, y.action)
            &&& same_opt_target(x.target, y.target)
            &&& same_opt_str(x.ability_id, y.ability_id)
        },
        (GameAction::Player(x), GameAction::Player(y)) => x == y,
        _ => false,
    }
}

/// Two lists of pending actions agree action by action.
pub open spec fn same_game_actions(a: Seq<GameAction>, b: Seq<GameAction>) -> bool {
    a.len() == b.len() && forall|i: int| 0 <= i < a.len() ==> same_game_action(#[trigger] a[i], b[i])
}

} // verus!

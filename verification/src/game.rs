//! The state of a game in progress and the rules that move it forward.
use vstd::prelude::*;
use crate::action::{ActionTriggerType, PhaseTarget, CardAction, CardActionTrigger, CardActionWrapper, CardRequiredTarget, GameAction, same_game_actions, same_game_action};
use crate::card::{Card, CardType, same_card, same_opt_str};
use crate::combat::Combat;
use crate::effects::{EffectManager, stats_wf};
use crate::player::{Player, charged_phase, player_trigger_applies, target_allows};
use crate::action::{DestroySelf, PlayerActionTrigger, PlayerActionWrapper};
use crate::card::card_useless;
use crate::effects::{EffectID, StatModifierEffect, from_source};
use crate::stat::{StatType, Stats};
use crate::table::{first_named, find_player};
use crate::turn::{Turn, TurnPhase};
use crate::mana::ManaType;

verus! {

/// What a player did while holding priority.
#[derive(Debug, Clone, Copy, PartialEq, Eq, Structural)]
pub enum ActionType {
    Tap,
    NoAction,
    Instant,
    Attach,
    PlayedCard,
}

/// Where a game stands before and while it is played.
#[derive(Debug, Clone, Copy, PartialEq, Eq, Structural)]
pub enum GameStatus {
    NeedsPlayers,
    InGame,
    WaitingForStart(i32),
}

/// Where a seat of a lobby stands.
#[derive(Debug, Clone, Copy, PartialEq, Eq, Structural)]
pub enum PlayerStatus {
    Spectator,
    Ready,
    InGame,
}

/// The piles a card can lie in, as the client names them.
#[derive(Debug, Clone, Copy, PartialEq, Eq, Structural)]
pub enum FrontendPileName {
    Hand,
    Play,
    Spell,
    Deck,
    Exiled,
    Graveyard,
}

/// A card as the client points at it: whose, which pile, which position.
#[derive(Debug, Clone, PartialEq)]
pub struct FrontendCardTarget {
    pub player_id: String,
    pub pile: FrontendPileName,
    pub card_index: i32,
}

/// A card or a player, as the client points at it.
#[derive(Debug, Clone, PartialEq)]
pub enum FrontendTarget {
    Card(FrontendCardTarget),
    Player(String),
}

/// Two card positions are the same position.
pub open spec fn same_card_target(a: FrontendCardTarget, b: FrontendCardTarget) -> bool {
    a.player_id@ == b.player_id@ && a.pile == b.pile && a.card_index == b.card_index
}

/// Two targets are the same target.
pub open spec fn same_target(a: FrontendTarget, b: FrontendTarget) -> bool {
    match (a, b) {
        (FrontendTarget::Card(x), FrontendTarget::Card(y)) => same_card_target(x, y),
        (FrontendTarget::Player(x), FrontendTarget::Player(y)) => x@ == y@,
        _ => false,
    }
}

impl FrontendCardTarget {
    /// A copy of this position.
    pub fn copy(&self) -> (r: FrontendCardTarget)
        ensures
            same_card_target(r, *self),
    {
        FrontendCardTarget { player_id: self.player_id.clone(), pile: self.pile, card_index: self.card_index }
    }
}

impl FrontendTarget {
    /// A copy of this target.
    pub fn copy(&self) -> (r: FrontendTarget)
        ensures
            same_target(r, *self),
    {
        match self {
            FrontendTarget::Card(c) => FrontendTarget::Card(c.copy()),
            FrontendTarget::Player(p) => FrontendTarget::Player(p.clone()),
        }
    }
}

/// A copy of an optional target.
pub fn copy_opt_target(t: &Option<FrontendTarget>) -> (r: Option<FrontendTarget>)
    ensures
        same_opt_target(r, *t),
{
    match t {
        None => None,
        Some(x) => Some(x.copy()),
    }
}

/// Two optional targets are both absent or the same target.
pub open spec fn same_opt_target(a: Option<FrontendTarget>, b: Option<FrontendTarget>) -> bool {
    match (a, b) {
        (None, None) => true,
        (Some(x), Some(y)) => same_target(x, y),
        _ => false,
    }
}

/// A blocker and the attacker it blocks.
#[derive(Debug, Clone, PartialEq)]
pub struct Block {
    pub attacker: FrontendCardTarget,
    pub blocker: FrontendCardTarget,
}

/// An attacker and what it attacks.
#[derive(Debug, Clone, PartialEq)]
pub struct Attack {
    pub attacker: FrontendCardTarget,
    pub target: FrontendTarget,
}

/// Who holds priority and for how many more seconds.
#[derive(Debug, Clone, PartialEq)]
pub struct PriorityQueue {
    pub player_id: String,
    pub time_left: i16,
}

/// How a player's turn at priority ended.
#[derive(Debug, Clone, Copy, PartialEq, Eq, Structural)]
pub enum PriorityActionResult {
    NoAction,
    ActionRequiresRestart,
    Timeout,
}

/// An ability of a card as the client is shown it.
#[derive(Debug, Clone, PartialEq)]
pub struct AbilityDetails {
    pub mana_cost: Vec<ManaType>,
    pub required_target: CardRequiredTarget,
    pub description: String,
    pub action_type: ActionType,
    pub show: bool,
    pub id: String,
    pub meets_requirements_except_mana: bool,
    pub meets_mana_requirements: bool,
    pub can_pay_mana: bool,
    pub owner_player_id: Option<String>,
    pub tap_required: bool,
    pub action: Option<CardAction>,
}

/// An ability a player is asked to use: the card it belongs to, the player
/// asked, its cost and target, the action it carries out, the action that
/// follows when it is declined, if any, and what it is shown as.
pub struct Ability {
    pub id: String,
    pub card: Card,
    pub player: String,
    pub mana_cost: Vec<ManaType>,
    pub target: CardRequiredTarget,
    pub description: String,
    pub ability: CardAction,
    pub canceled: Option<CardAction>,
    pub action_type: ActionType,
}

impl Ability {
    /// An ability under a freshly generated id.
    pub fn new(
        card: Card,
        player: String,
        mana_cost: Vec<ManaType>,
        target: CardRequiredTarget,
        ability: CardAction,
        canceled: Option<CardAction>,
        description: String,
        action_type: ActionType,
    ) -> (a: Self)
        ensures
            a.id@.len() == 26,
            a.card == card,
            a.player == player,
            a.mana_cost == mana_cost,
            a.target == target,
            a.ability == ability,
            a.canceled == canceled,
            a.description == description,
            a.action_type == action_type,
    {
        Ability { id: crate::rng::new_ulid(), card, player, mana_cost, target, ability, canceled, description, action_type }
    }
}

/// A game in progress: the players in their seats, the turn, the effects in
/// play, the actions waiting on the stack, the combat, who holds priority,
/// what happened this turn, and the abilities waiting on a player's answer.
pub struct Game {
    pub players: Vec<Player>,
    pub current_turn: Option<Turn>,
    pub turn_number: usize,
    pub effect_manager: EffectManager,
    pub event_stack: Vec<GameAction>,
    pub combat: Combat,
    pub current_priority_player: Option<(usize, i16, ActionType)>,
    pub turn_messages: Vec<String>,
    pub cards_triggered_this_turn: Vec<String>,
    pub triggers_played_this_turn: Vec<(String, i32)>,
    pub starting_health: i16,
    pub async_abilities: Vec<Ability>,
}

/// The seats that get priority after the given one, in seating order,
/// wrapping around; none when the seat is not at the table.
pub open spec fn priority_order(n: int, start: int) -> Seq<usize> {
    if 0 <= start < n {
        Seq::new((n - 1) as nat, |i: int| ((start + i + 1) % n) as usize)
    } else {
        Seq::empty()
    }
}

/// The pile of a player that a pile name stands for.
pub open spec fn pile_of(p: Player, pile: FrontendPileName) -> Seq<Card> {
    match pile {
        FrontendPileName::Deck => p.deck.draw_pile@,
        FrontendPileName::Hand => p.cards_in_hand@,
        FrontendPileName::Play => p.cards_in_play@,
        FrontendPileName::Spell => p.spells@,
        FrontendPileName::Exiled => p.deck.exiled@,
        FrontendPileName::Graveyard => p.deck.graveyard@,
    }
}

/// The player `q` is `p` with the named pile replaced by `cards` and nothing
/// else changed.
pub open spec fn pile_replaced(p: Player, q: Player, pile: FrontendPileName, cards: Seq<Card>) -> bool {
    &&& pile_of(q, pile) == cards
    &&& match pile {
        FrontendPileName::Deck => q == (Player { deck: q.deck, ..p }) && q.deck == (crate::deck::Deck { draw_pile: q.deck.draw_pile, ..p.deck }),
        FrontendPileName::Hand => q == (Player { cards_in_hand: q.cards_in_hand, ..p }),
        FrontendPileName::Play => q == (Player { cards_in_play: q.cards_in_play, ..p }),
        FrontendPileName::Spell => q == (Player { spells: q.spells, ..p }),
        FrontendPileName::Exiled => q == (Player { deck: q.deck, ..p }) && q.deck == (crate::deck::Deck { exiled: q.deck.exiled, ..p.deck }),
        FrontendPileName::Graveyard => q == (Player { deck: q.deck, ..p }) && q.deck == (crate::deck::Deck { graveyard: q.deck.graveyard, ..p.deck }),
    }
}

/// The position the client would use for the card with the given id: the
/// first player, in seating order, holding it in hand, on the stack, on the
/// battlefield or in the draw pile, searched in that order.
pub open spec fn locates(players: Seq<Player>, id: Seq<char>, t: FrontendCardTarget) -> bool {
    exists|pi: int, k: int| #![trigger players[pi], pile_of(players[pi], t.pile)[k]] {
        &&& 0 <= pi < players.len()
        &&& t.player_id@ == players[pi].name@
        &&& 0 <= k < pile_of(players[pi], t.pile).len()
        &&& t.card_index == k as i32
        &&& pile_of(players[pi], t.pile)[k].id@ == id
        &&& forall|pj: int| 0 <= pj < pi ==> !holds_card(#[trigger] players[pj], id)
        &&& earlier_piles_lack(players[pi], id, t.pile)
        &&& forall|j: int| 0 <= j < k ==> (#[trigger] pile_of(players[pi], t.pile)[j]).id@ != id
    }
}

/// The piles searched for a card, in order.
pub open spec fn searched(pile: FrontendPileName) -> bool {
    pile == FrontendPileName::Hand || pile == FrontendPileName::Spell || pile == FrontendPileName::Play || pile == FrontendPileName::Deck
}

/// A pile holds a card with the given id.
pub open spec fn pile_holds(cards: Seq<Card>, id: Seq<char>) -> bool {
    exists|k: int| 0 <= k < cards.len() && (#[trigger] cards[k]).id@ == id
}

/// The player holds the card in one of the searched piles.
pub open spec fn holds_card(p: Player, id: Seq<char>) -> bool {
    pile_holds(p.cards_in_hand@, id) || pile_holds(p.spells@, id) || pile_holds(p.cards_in_play@, id) || pile_holds(p.deck.draw_pile@, id)
}

/// The piles searched before `pile` lack the card.
pub open spec fn earlier_piles_lack(p: Player, id: Seq<char>, pile: FrontendPileName) -> bool {
    match pile {
        FrontendPileName::Hand => true,
        FrontendPileName::Spell => !pile_holds(p.cards_in_hand@, id),
        FrontendPileName::Play => !pile_holds(p.cards_in_hand@, id) && !pile_holds(p.spells@, id),
        FrontendPileName::Deck => !pile_holds(p.cards_in_hand@, id) && !pile_holds(p.spells@, id) && !pile_holds(p.cards_in_play@, id),
        _ => false,
    }
}

/// A creature with its combat damage forgotten; any other card as it is.
pub open spec fn creature_reset(c: Card) -> Card {
    if c.card_type == CardType::Creature {
        Card { damage_taken: 0, damage_dealt_to_players: 0, ..c }
    } else {
        c
    }
}

/// The player is still standing.
pub open spec fn standing(p: Player) -> bool {
    p.stat_manager.total(StatType::Health) > 0
}

/// A player leaves the game exactly when their health has run out, at zero
/// or below: every player who stays has health above zero, every player
/// with health above zero stays, and every player who leaves has health at
/// most zero.
pub proof fn law_deaths_by_health(players: Seq<Player>, kept: Seq<Player>, gone: Seq<Player>)
    requires
        kept == players.filter(|p: Player| standing(p)),
        gone == players.filter(|p: Player| !standing(p)),
    ensures
        forall|k: int| 0 <= k < kept.len() ==> (#[trigger] kept[k]).stat_manager.total(StatType::Health) > 0,
        forall|k: int| 0 <= k < players.len() && (#[trigger] players[k]).stat_manager.total(StatType::Health) > 0
            ==> kept.contains(players[k]),
        forall|k: int| 0 <= k < gone.len() ==> (#[trigger] gone[k]).stat_manager.total(StatType::Health) <= 0,
{
    let up = |p: Player| standing(p);
    let down = |p: Player| !standing(p);
    assert forall|k: int| 0 <= k < kept.len() implies (#[trigger] kept[k]).stat_manager.total(StatType::Health) > 0 by {
        players.lemma_filter_pred(up, k);
    }
    assert forall|k: int| 0 <= k < players.len() && (#[trigger] players[k]).stat_manager.total(StatType::Health) > 0 implies kept.contains(players[k]) by {
        players.lemma_filter_contains(up, k);
    }
    assert forall|k: int| 0 <= k < gone.len() implies (#[trigger] gone[k]).stat_manager.total(StatType::Health) <= 0 by {
        players.lemma_filter_pred(down, k);
    }
}

/// Every player's health can be added up in an `i16`.
pub open spec fn health_countable(players: Seq<Player>) -> bool {
    forall|pi: int| 0 <= pi < players.len() ==> {
        &&& (#[trigger] players[pi]).stat_manager.stats@.len() < 0x1_0000_0000
        &&& i16::MIN <= players[pi].stat_manager.total(StatType::Health) <= i16::MAX
    }
}

/// Forgets the combat damage of the creatures in the list.
fn reset_damage_of(cards: &mut Vec<Card>)
    ensures
        final(cards)@.len() == old(cards)@.len(),
        forall|j: int| 0 <= j < old(cards)@.len() ==> #[trigger] final(cards)@[j] == creature_reset(old(cards)@[j]),
{
    let mut j: usize = 0;
    while j < cards.len()
        invariant
            j <= cards@.len(),
            cards@.len() == old(cards)@.len(),
            forall|k: int| j <= k < cards@.len() ==> #[trigger] cards@[k] == old(cards)@[k],
            forall|k: int| 0 <= k < j ==> #[trigger] cards@[k] == creature_reset(old(cards)@[k]),
        decreases cards@.len() - j,
    {
        let mut c = cards.remove(j);
        if c.card_type == CardType::Creature {
            c.damage_taken = 0;
            c.damage_dealt_to_players = 0;
        }
        cards.insert(j, c);
        j = j + 1;
    }
}

/// The position of the first card with the given id in a pile.
pub(crate) fn position_in(cards: &Vec<Card>, id: &String) -> (r: Option<usize>)
    ensures
        match r {
            Some(k) => k < cards@.len() && cards@[k as int].id@ == id@
                && forall|j: int| 0 <= j < k ==> (#[trigger] cards@[j]).id@ != id@,
            None => !pile_holds(cards@, id@),
        },
{
    let mut k: usize = 0;
    while k < cards.len()
        invariant
            k <= cards@.len(),
            forall|j: int| 0 <= j < k ==> (#[trigger] cards@[j]).id@ != id@,
        decreases cards@.len() - k,
    {
        if cards[k].id == *id {
            return Some(k);
        }
        k = k + 1;
    }
    None
}

/// Each card of the list with each of its triggers, card by card.
pub open spec fn card_pairs(cards: Seq<Card>) -> Seq<(Card, CardActionTrigger)>
    decreases cards.len(),
{
    if cards.len() == 0 {
        Seq::empty()
    } else {
        card_pairs(cards.drop_last()) + trigger_pairs(cards.last(), cards.last().triggers@)
    }
}

/// The card with each of the given triggers.
pub open spec fn trigger_pairs(c: Card, ts: Seq<CardActionTrigger>) -> Seq<(Card, CardActionTrigger)> {
    ts.map_values(|t: CardActionTrigger| (c, t))
}

/// Each card in play with each of its triggers, seat by seat.
pub open spec fn table_pairs(players: Seq<Player>) -> Seq<(Card, CardActionTrigger)>
    decreases players.len(),
{
    if players.len() == 0 {
        Seq::empty()
    } else {
        table_pairs(players.drop_last()) + card_pairs(players.last().cards_in_play@)
    }
}

/// What a collected card action is aimed at.
pub enum TargetPolicy {
    /// The given target.
    Given(Option<FrontendTarget>),
    /// The card's own target.
    CardsOwn,
    /// Nothing.
    NoTarget,
}

/// The pending action of a card's trigger, aimed as the policy says.
pub open spec fn pair_action(pair: (Card, CardActionTrigger), policy: TargetPolicy) -> GameAction {
    GameAction::Card(CardActionWrapper {
        card: pair.0.id,
        action: pair.1.action,
        target: match policy {
            TargetPolicy::Given(t) => t,
            TargetPolicy::CardsOwn => pair.0.target,
            TargetPolicy::NoTarget => None,
        },
        ability_id: Some(pair.1.id),
    })
}

/// The pending actions of the pairs whose flag is set, in order.
pub open spec fn picked(pairs: Seq<(Card, CardActionTrigger)>, flags: Seq<bool>, policy: TargetPolicy) -> Seq<GameAction>
    decreases pairs.len(),
{
    if pairs.len() == 0 || flags.len() != pairs.len() {
        Seq::empty()
    } else {
        let rest = picked(pairs.drop_last(), flags.drop_last(), policy);
        if flags.last() { rest.push(pair_action(pairs.last(), policy)) } else { rest }
    }
}

/// Which pairs carry an omnipresent trigger.
pub open spec fn omnipresent_flags(pairs: Seq<(Card, CardActionTrigger)>) -> Seq<bool> {
    Seq::new(pairs.len(), |k: int| pairs[k].1.trigger_type == ActionTriggerType::Omnipresent)
}

/// The pending actions for the triggers of the cards in play that `pick`
/// chooses, seat by seat and card by card, aimed as the policy says.
pub fn collect_in_play<C, F: Fn(&C, &Card, &CardActionTrigger) -> bool>(players: &Vec<Player>, ctx: &C, pick: F, policy: &TargetPolicy) -> (r: Vec<GameAction>)
    requires
        forall|c: &Card, t: &CardActionTrigger| call_requires(pick, (ctx, c, t)),
    ensures
        exists|flags: Seq<bool>| {
            &&& flags.len() == table_pairs(players@).len()
            &&& forall|k: int| 0 <= k < flags.len() ==> call_ensures(pick, (ctx, &table_pairs(players@)[k].0, &table_pairs(players@)[k].1), #[trigger] flags[k])
            &&& same_game_actions(r@, picked(table_pairs(players@), flags, *policy))
        },
{
    let mut r: Vec<GameAction> = Vec::new();
    let ghost mut flags: Seq<bool> = Seq::empty();
    let ghost mut done: Seq<(Card, CardActionTrigger)> = Seq::empty();
    let mut i: usize = 0;
    while i < players.len()
        invariant
            i <= players@.len(),
            forall|c: &Card, t: &CardActionTrigger| call_requires(pick, (ctx, c, t)),
            done == table_pairs(players@.subrange(0, i as int)),
            flags.len() == done.len(),
            forall|k: int| 0 <= k < flags.len() ==> call_ensures(pick, (ctx, &done[k].0, &done[k].1), #[trigger] flags[k]),
            same_game_actions(r@, picked(done, flags, *policy)),
        decreases players@.len() - i,
    {
        let cards = &players[i].cards_in_play;
        let ghost base = done;
        proof {
            assert(players@.subrange(0, i as int + 1).drop_last() =~= players@.subrange(0, i as int));
        }
        let mut c: usize = 0;
        while c < cards.len()
            invariant
                i < players@.len(),
                *cards == players@[i as int].cards_in_play,
                c <= cards@.len(),
                forall|c: &Card, t: &CardActionTrigger| call_requires(pick, (ctx, c, t)),
                base == table_pairs(players@.subrange(0, i as int)),
                done == base + card_pairs(cards@.subrange(0, c as int)),
                flags.len() == done.len(),
                forall|k: int| 0 <= k < flags.len() ==> call_ensures(pick, (ctx, &done[k].0, &done[k].1), #[trigger] flags[k]),
                same_game_actions(r@, picked(done, flags, *policy)),
            decreases cards@.len() - c,
        {
            let card = &cards[c];
            let ghost mid = done;
            proof {
                assert(cards@.subrange(0, c as int + 1).drop_last() =~= cards@.subrange(0, c as int));
            }
            let mut t: usize = 0;
            while t < card.triggers.len()
                invariant
                    *card == cards@[c as int],
                    t <= card.triggers@.len(),
                    forall|c: &Card, t: &CardActionTrigger| call_requires(pick, (ctx, c, t)),
                    done == mid + trigger_pairs(*card, card.triggers@.subrange(0, t as int)),
                    flags.len() == done.len(),
                    forall|k: int| 0 <= k < flags.len() ==> call_ensures(pick, (ctx, &done[k].0, &done[k].1), #[trigger] flags[k]),
                    same_game_actions(r@, picked(done, flags, *policy)),
                decreases card.triggers@.len() - t,
            {
                let trigger = &card.triggers[t];
                let b = pick(ctx, card, trigger);
                let ghost before = r@;
                if b {
                    let target = match policy {
                        TargetPolicy::Given(x) => copy_opt_target(x),
                        TargetPolicy::CardsOwn => copy_opt_target(&card.target),
                        TargetPolicy::NoTarget => None,
                    };
                    r.push(GameAction::Card(CardActionWrapper {
                        card: card.id.clone(),
                        action: trigger.action.copy(),
                        target,
                        ability_id: Some(trigger.id.clone()),
                    }));
                }
                proof {
                    let pair = (*card, *trigger);
                    let done0 = done;
                    let flags0 = flags;
                    done = done.push(pair);
                    flags = flags.push(b);
                    assert(done.drop_last() =~= done0);
                    assert(flags.drop_last() =~= flags0);
                    assert(trigger_pairs(*card, card.triggers@.subrange(0, t as int + 1)) =~= trigger_pairs(*card, card.triggers@.subrange(0, t as int)).push(pair));
                    assert forall|k: int| 0 <= k < flags.len() implies call_ensures(pick, (ctx, &done[k].0, &done[k].1), #[trigger] flags[k]) by {
                        if k < flags0.len() {
                            assert(done[k] == done0[k]);
                            assert(flags[k] == flags0[k]);
                        }
                    }
                    assert forall|k: int| 0 <= k < r@.len() implies same_game_action(#[trigger] r@[k], picked(done, flags, *policy)[k]) by {
                        if k < before.len() {
                            assert(r@[k] == before[k]);
                        }
                    }
                }
                t = t + 1;
            }
            proof {
                assert(card.triggers@.subrange(0, card.triggers@.len() as int) =~= card.triggers@);
                assert(card_pairs(cards@.subrange(0, c as int + 1)) =~= card_pairs(cards@.subrange(0, c as int)) + trigger_pairs(*card, card.triggers@));
                assert(done =~= base + card_pairs(cards@.subrange(0, c as int + 1)));
            }
            c = c + 1;
        }
        proof {
            assert(cards@.subrange(0, cards@.len() as int) =~= cards@);
            assert(done =~= table_pairs(players@.subrange(0, i as int + 1)));
        }
        i = i + 1;
    }
    proof {
        assert(players@.subrange(0, players@.len() as int) =~= players@);
    }
    r
}

/// Whether the trigger `t` of the card `c` in play answers the playing of
/// the card with id `played`, whose owner is named `owner`: the played card's
/// own entering the battlefield, a card of the owner's whose tribe matches the
/// trigger's while it is the owner's turn, or another card of the owner's.
pub open spec fn answers_played(played: Seq<char>, owner: Seq<char>, owner_is_current: bool, c: Card, t: CardActionTrigger) -> bool {
    ||| t.trigger_type == ActionTriggerType::CardEnteredBattlefield && c.id@ == played
    ||| match t.trigger_type {
        ActionTriggerType::CreatureTypeCardPlayed(PhaseTarget::Owner, ct) =>
            owned_by_name(c, owner) && c.creature_type == Some(ct) && owner_is_current,
        _ => false,
    }
    ||| t.trigger_type == ActionTriggerType::OtherCardPlayed(PhaseTarget::Owner) && c.id@ != played && owned_by_name(c, owner)
}

/// Which pairs answer the playing of a card.
pub open spec fn played_flags(pairs: Seq<(Card, CardActionTrigger)>, played: Seq<char>, owner: Seq<char>, owner_is_current: bool) -> Seq<bool> {
    Seq::new(pairs.len(), |k: int| answers_played(played, owner, owner_is_current, pairs[k].0, pairs[k].1))
}

/// The card's owner carries the given name.
pub open spec fn owned_by_name(c: Card, owner: Seq<char>) -> bool {
    match c.owner {
        Some(o) => o@ == owner,
        None => false,
    }
}

/// The playing of `played` would reach a trigger kind the engine does not
/// handle: a tribe trigger or an other-card trigger for opponents or anyone.
pub open spec fn played_unhandled(played: Seq<char>, c: Card, t: CardActionTrigger) -> bool {
    ||| t.trigger_type matches ActionTriggerType::CreatureTypeCardPlayed(PhaseTarget::Opponent, _)
    ||| t.trigger_type matches ActionTriggerType::CreatureTypeCardPlayed(PhaseTarget::Any, _)
    ||| (c.id@ != played && c.owner is Some && (t.trigger_type == ActionTriggerType::OtherCardPlayed(PhaseTarget::Opponent)
        || t.trigger_type == ActionTriggerType::OtherCardPlayed(PhaseTarget::Any)))
}

/// The player whose turn it is carries the given name.
pub open spec fn is_current_player(g: Game, name: Seq<char>) -> bool {
    g.current_turn matches Some(t) && 0 <= t.current_player_index < g.players@.len()
        && g.players@[t.current_player_index as int].name@ == name
}

/// Each action picked comes from a pair whose flag is set.
proof fn lemma_picked_from(pairs: Seq<(Card, CardActionTrigger)>, flags: Seq<bool>, policy: TargetPolicy)
    requires
        flags.len() == pairs.len(),
    ensures
        forall|i: int| #![trigger picked(pairs, flags, policy)[i]] 0 <= i < picked(pairs, flags, policy).len() ==> exists|k: int| #![trigger pairs[k]]
            0 <= k < pairs.len() && flags[k] && picked(pairs, flags, policy)[i] == pair_action(pairs[k], policy),
    decreases pairs.len(),
{
    if pairs.len() > 0 {
        let rest = picked(pairs.drop_last(), flags.drop_last(), policy);
        lemma_picked_from(pairs.drop_last(), flags.drop_last(), policy);
        assert forall|i: int| #![trigger picked(pairs, flags, policy)[i]] 0 <= i < picked(pairs, flags, policy).len() implies exists|k: int| #![trigger pairs[k]]
            0 <= k < pairs.len() && flags[k] && picked(pairs, flags, policy)[i] == pair_action(pairs[k], policy) by {
            if i < rest.len() {
                let k = choose|k: int| #![trigger pairs.drop_last()[k]]
                    0 <= k < pairs.drop_last().len() && flags.drop_last()[k] && rest[i] == pair_action(pairs.drop_last()[k], policy);
                assert(pairs.drop_last()[k] == pairs[k]);
                assert(flags.drop_last()[k] == flags[k]);
            } else {
                assert(pairs[pairs.len() - 1] == pairs.last());
            }
        }
    }
}

/// Playing a card never sets off an other-card trigger of that card itself:
/// among the cards in play with their triggers, every action the playing of
/// the card with id `played` sets off comes from a trigger that is not an
/// `OtherCardPlayed` trigger of a card with that id.
pub proof fn law_played_card_ignores_itself(
    pairs: Seq<(Card, CardActionTrigger)>,
    played: Seq<char>,
    owner: Seq<char>,
    owner_is_current: bool,
    policy: TargetPolicy,
)
    ensures
        forall|i: int| #![trigger picked(pairs, played_flags(pairs, played, owner, owner_is_current), policy)[i]]
            0 <= i < picked(pairs, played_flags(pairs, played, owner, owner_is_current), policy).len() ==> exists|k: int| #![trigger pairs[k]] {
            &&& 0 <= k < pairs.len()
            &&& picked(pairs, played_flags(pairs, played, owner, owner_is_current), policy)[i] == pair_action(pairs[k], policy)
            &&& !(pairs[k].0.id@ == played && pairs[k].1.trigger_type is OtherCardPlayed)
        },
{
    let flags = played_flags(pairs, played, owner, owner_is_current);
    lemma_picked_from(pairs, flags, policy);
    assert forall|i: int| #![trigger picked(pairs, flags, policy)[i]] 0 <= i < picked(pairs, flags, policy).len() implies exists|k: int| #![trigger pairs[k]] {
        &&& 0 <= k < pairs.len()
        &&& picked(pairs, flags, policy)[i] == pair_action(pairs[k], policy)
        &&& !(pairs[k].0.id@ == played && pairs[k].1.trigger_type is OtherCardPlayed)
    } by {
        let k = choose|k: int| #![trigger pairs[k]]
            0 <= k < pairs.len() && flags[k] && picked(pairs, flags, policy)[i] == pair_action(pairs[k], policy);
        assert(answers_played(played, owner, owner_is_current, pairs[k].0, pairs[k].1));
    }
}

/// Whether the trigger is omnipresent.
fn is_omnipresent(ctx: &(), c: &Card, t: &CardActionTrigger) -> (b: bool)
    ensures
        b == (t.trigger_type == ActionTriggerType::Omnipresent),
{
    match t.trigger_type {
        ActionTriggerType::Omnipresent => true,
        _ => false,
    }
}

/// Whether the trigger answers the playing of the card the context names:
/// its id, its owner's name, and whether it is the owner's turn.
fn answers_played_pick(ctx: &(String, String, bool), c: &Card, t: &CardActionTrigger) -> (b: bool)
    ensures
        b == answers_played(ctx.0@, ctx.1@, ctx.2, *c, *t),
{
    let owned = match &c.owner {
        Some(o) => *o == ctx.1,
        None => false,
    };
    match &t.trigger_type {
        ActionTriggerType::CardEnteredBattlefield => c.id == ctx.0,
        ActionTriggerType::CreatureTypeCardPlayed(PhaseTarget::Owner, ct) => owned && c.creature_type == Some(*ct) && ctx.2,
        ActionTriggerType::OtherCardPlayed(PhaseTarget::Owner) => c.id != ctx.0 && owned,
        _ => false,
    }
}

/// Picking under policies that aim at the same targets picks the same actions.
pub proof fn lemma_picked_same_target(pairs: Seq<(Card, CardActionTrigger)>, flags: Seq<bool>, p: TargetPolicy, q: TargetPolicy)
    requires
        match (p, q) {
            (TargetPolicy::Given(a), TargetPolicy::Given(b)) => same_opt_target(a, b),
            (TargetPolicy::CardsOwn, TargetPolicy::CardsOwn) => true,
            (TargetPolicy::NoTarget, TargetPolicy::NoTarget) => true,
            _ => false,
        },
    ensures
        forall|r: Seq<GameAction>| same_game_actions(r, picked(pairs, flags, p)) ==> #[trigger] same_game_actions(r, picked(pairs, flags, q)),
    decreases pairs.len(),
{
    if pairs.len() > 0 && flags.len() == pairs.len() {
        lemma_picked_same_target(pairs.drop_last(), flags.drop_last(), p, q);
    }
    assert forall|r: Seq<GameAction>| same_game_actions(r, picked(pairs, flags, p)) implies #[trigger] same_game_actions(r, picked(pairs, flags, q)) by {
        lemma_picked_pointwise(pairs, flags, p, q);
        assert forall|i: int| 0 <= i < r.len() implies same_game_action(#[trigger] r[i], picked(pairs, flags, q)[i]) by {
            assert(same_game_action(r[i], picked(pairs, flags, p)[i]));
        }
    }
}

/// Picking under policies that aim at the same targets picks, position by
/// position, the same actions.
pub proof fn lemma_picked_pointwise(pairs: Seq<(Card, CardActionTrigger)>, flags: Seq<bool>, p: TargetPolicy, q: TargetPolicy)
    requires
        match (p, q) {
            (TargetPolicy::Given(a), TargetPolicy::Given(b)) => same_opt_target(a, b),
            (TargetPolicy::CardsOwn, TargetPolicy::CardsOwn) => true,
            (TargetPolicy::NoTarget, TargetPolicy::NoTarget) => true,
            _ => false,
        },
    ensures
        picked(pairs, flags, p).len() == picked(pairs, flags, q).len(),
        forall|i: int| 0 <= i < picked(pairs, flags, p).len() ==> {
            let x = #[trigger] picked(pairs, flags, p)[i];
            let y = picked(pairs, flags, q)[i];
            x matches GameAction::Card(a) && y matches GameAction::Card(b)
                && a.card == b.card && a.action == b.action && a.ability_id == b.ability_id && same_opt_target(a.target, b.target)
        },
    decreases pairs.len(),
{
    if pairs.len() > 0 && flags.len() == pairs.len() {
        lemma_picked_pointwise(pairs.drop_last(), flags.drop_last(), p, q);
    }
}

/// The pending actions of the player triggers that fire in the turn, for the
/// player at seat `pi` with the given pool.
pub open spec fn player_actions(ts: Seq<PlayerActionTrigger>, turn: Turn, pi: usize, pool: crate::mana::ManaPool) -> Seq<GameAction>
    decreases ts.len(),
{
    if ts.len() == 0 {
        Seq::empty()
    } else {
        let rest = player_actions(ts.drop_last(), turn, pi, pool);
        if player_trigger_applies(ts.last().trigger_type, turn, turn.current_player_index == pi as i32, pool) {
            rest.push(GameAction::Player(PlayerActionWrapper { action: ts.last().action, player: pi }))
        } else {
            rest
        }
    }
}

/// The pending actions of the card's phase triggers that fire in the turn,
/// each aimed at the card's target.
pub open spec fn card_phase_actions(c: Card, ts: Seq<CardActionTrigger>, turn: Turn, is_current: bool) -> Seq<GameAction>
    decreases ts.len(),
{
    if ts.len() == 0 {
        Seq::empty()
    } else {
        let rest = card_phase_actions(c, ts.drop_last(), turn, is_current);
        match ts.last().trigger_type {
            ActionTriggerType::PhaseStarted(phases, target) => if phases@.contains(turn.phase) && target_allows(target, is_current) {
                rest.push(GameAction::Card(CardActionWrapper { card: c.id, action: ts.last().action, target: c.target, ability_id: Some(ts.last().id) }))
            } else {
                rest
            },
            _ => rest,
        }
    }
}

/// Some effect stems from the card with the given id.
pub open spec fn has_effect_from(effects: Seq<(EffectID, StatModifierEffect)>, id: Seq<char>) -> bool {
    exists|i: int| 0 <= i < effects.len() && from_source((#[trigger] effects[i]).1, id)
}

/// The pending action of a card destroying itself.
pub open spec fn destroy_self_action(c: Card) -> GameAction {
    GameAction::Card(CardActionWrapper { card: c.id, action: CardAction::DestroySelf(DestroySelf {}), target: None, ability_id: None })
}

/// The pending actions of the phase triggers of the cards, card by card, each
/// followed by the card's destroying itself when it is useless.
pub open spec fn cards_phase_actions(cards: Seq<Card>, turn: Turn, is_current: bool, effects: Seq<(EffectID, StatModifierEffect)>) -> Seq<GameAction>
    decreases cards.len(),
{
    if cards.len() == 0 {
        Seq::empty()
    } else {
        let c = cards.last();
        cards_phase_actions(cards.drop_last(), turn, is_current, effects)
            + card_phase_actions(c, c.triggers@, turn, is_current)
            + (if card_useless(c, has_effect_from(effects, c.id@)) { seq![destroy_self_action(c)] } else { Seq::empty() })
    }
}

/// The pending actions a new phase sets off, seat by seat: the player's own
/// triggers, then the phase triggers of the player's cards in play.
pub open spec fn phase_actions(players: Seq<Player>, turn: Turn, effects: Seq<(EffectID, StatModifierEffect)>) -> Seq<GameAction>
    decreases players.len(),
{
    if players.len() == 0 {
        Seq::empty()
    } else {
        let pi = (players.len() - 1) as usize;
        let p = players.last();
        phase_actions(players.drop_last(), turn, effects)
            + player_actions(p.triggers@, turn, pi, p.mana_pool)
            + cards_phase_actions(p.cards_in_play@, turn, turn.current_player_index == pi as i32, effects)
    }
}

/// Every player can count the mana its ability triggers ask for.
pub open spec fn players_countable(players: Seq<Player>) -> bool {
    forall|pi: int| 0 <= pi < players.len() ==> crate::player::player_triggers_countable(#[trigger] players[pi])
}

pub proof fn lemma_same_actions_concat(a: Seq<GameAction>, b: Seq<GameAction>, c: Seq<GameAction>, d: Seq<GameAction>)
    requires
        same_game_actions(a, b),
        same_game_actions(c, d),
    ensures
        same_game_actions(a + c, b + d),
{
    assert forall|i: int| 0 <= i < (a + c).len() implies same_game_action(#[trigger] (a + c)[i], (b + d)[i]) by {
        if i < a.len() {
            assert(same_game_action(a[i], b[i]));
        } else {
            assert(same_game_action(c[i - a.len()], d[i - a.len()]));
        }
    }
}

/// `g1` is `g0` with the given player's turn started: a fresh turn in its
/// untap phase, the turn count moved on, creature damage and this turn's
/// records forgotten, every player's health noted, and the player's charging
/// cards moved one turn on.
pub open spec fn turn_started(g0: Game, g1: Game, player_index: usize) -> bool {
    &&& g1.turn_messages@.len() == 0
    &&& g1.current_turn == Some(Turn {
        current_player_index: player_index as i32,
        phase: TurnPhase::Untap,
        turn_number: g0.turn_number as i32,
    })
    &&& g1.turn_number == g0.turn_number + 1
    &&& g1.triggers_played_this_turn@.len() == 0
    &&& g1.cards_triggered_this_turn@.len() == 0
    &&& g1.players@.len() == g0.players@.len()
    &&& forall|pi: int| 0 <= pi < g0.players@.len() ==> {
        &&& #[trigger] g1.players@[pi] == (Player {
            cards_in_play: g1.players@[pi].cards_in_play,
            health_at_start_of_round: g0.players@[pi].stat_manager.total(StatType::Health) as i16,
            ..g0.players@[pi]
        })
        &&& g1.players@[pi].cards_in_play@.len() == g0.players@[pi].cards_in_play@.len()
        &&& forall|ci: int| 0 <= ci < g0.players@[pi].cards_in_play@.len() ==>
            #[trigger] g1.players@[pi].cards_in_play@[ci] == if pi == player_index {
                Card { current_phase: charged_phase(g0.players@[pi].cards_in_play@[ci].current_phase), ..creature_reset(g0.players@[pi].cards_in_play@[ci]) }
            } else {
                creature_reset(g0.players@[pi].cards_in_play@[ci])
            }
    }
    &&& g1.combat == g0.combat
    &&& g1.effect_manager == g0.effect_manager
    &&& g1.event_stack == g0.event_stack
    &&& g1.current_priority_player == g0.current_priority_player
    &&& g1.starting_health == g0.starting_health
    &&& g1.async_abilities == g0.async_abilities
}

impl Game {
    /// A game with no players yet, starting health 20.
    pub fn new() -> (g: Self)
        ensures
            g.players@.len() == 0,
            g.current_turn.is_none(),
            g.turn_number == 0,
            g.effect_manager.effects@.len() == 0,
            g.event_stack@.len() == 0,
            g.combat.attackers@.len() == 0,
            g.combat.blockers@.len() == 0,
            g.current_priority_player.is_none(),
            g.turn_messages@.len() == 0,
            g.cards_triggered_this_turn@.len() == 0,
            g.triggers_played_this_turn@.len() == 0,
            g.starting_health == 20,
            g.async_abilities@.len() == 0,
    {
        Game {
            triggers_played_this_turn: Vec::new(),
            players: Vec::new(),
            current_turn: None,
            turn_number: 0,
            effect_manager: EffectManager::new(),
            event_stack: Vec::new(),
            combat: Combat::new(),
            current_priority_player: None,
            turn_messages: Vec::new(),
            cards_triggered_this_turn: Vec::new(),
            starting_health: 20,
            async_abilities: Vec::new(),
        }
    }

    /// The phase of the current turn.
    pub fn current_phase(&self) -> (p: TurnPhase)
        requires
            self.current_turn.is_some(),
        ensures
            p == self.current_turn.unwrap().phase,
    {
        match &self.current_turn {
            Some(t) => t.phase,
            None => TurnPhase::Untap,
        }
    }

    /// What the player holding priority has done, if anyone holds it.
    pub fn performed_action(&self) -> (a: ActionType)
        ensures
            a == match self.current_priority_player {
                Some((_, _, action)) => action,
                None => ActionType::NoAction,
            },
    {
        match &self.current_priority_player {
            Some((_, _, action)) => *action,
            None => ActionType::NoAction,
        }
    }

    /// Records a message for this turn.
    pub fn add_turn_message(&mut self, message: String)
        ensures
            final(self).turn_messages@ == old(self).turn_messages@.push(message),
            *final(self) == (Game { turn_messages: final(self).turn_messages, ..*old(self) }),
    {
        self.turn_messages.push(message);
    }

    /// Forgets this turn's messages.
    pub fn reset_turn_messages(&mut self)
        ensures
            final(self).turn_messages@.len() == 0,
            *final(self) == (Game { turn_messages: final(self).turn_messages, ..*old(self) }),
    {
        self.turn_messages = Vec::new();
    }

    /// The seats that get priority after the given seat, in seating order.
    pub fn get_players_in_priority_order(&self, starting_player: usize) -> (r: Vec<usize>)
        ensures
            r@ == priority_order(self.players@.len() as int, starting_player as int),
    {
        let mut players_in_order: Vec<usize> = Vec::new();
        let num_players = self.players.len();
        if num_players > 0 && starting_player < num_players {
            let mut i: usize = 1;
            while i < num_players
                invariant
                    1 <= i <= num_players,
                    num_players == self.players@.len(),
                    starting_player < num_players,
                    players_in_order@ =~= Seq::new((i - 1) as nat, |j: int| ((starting_player + j + 1) % (num_players as int)) as usize),
                decreases num_players - i,
            {
                let index = ((starting_player as u128 + i as u128) % (num_players as u128)) as usize;
                players_in_order.push(index);
                i = i + 1;
            }
        }
        players_in_order
    }

    /// The seat of the player the card position names.
    pub fn player_from_frontend_card_target(&self, target: &FrontendCardTarget) -> (r: Result<usize, String>)
        ensures
            match r {
                Ok(pi) => first_named(self.players@, target.player_id@, pi as int),
                Err(e) => e@ == "Unable to find target"@
                    && forall|j: int| 0 <= j < self.players@.len() ==> (#[trigger] self.players@[j]).name@ != target.player_id@,
            },
    {
        match find_player(&self.players, &target.player_id) {
            Some(pi) => Ok(pi),
            None => Err("Unable to find target".to_string()),
        }
    }

    /// The seat of the player the card position names.
    pub fn get_player_from_frontend_target(&self, target: &FrontendCardTarget) -> (r: Result<usize, String>)
        ensures
            match r {
                Ok(pi) => first_named(self.players@, target.player_id@, pi as int),
                Err(e) => e@ == "Unable to find target"@
                    && forall|j: int| 0 <= j < self.players@.len() ==> (#[trigger] self.players@[j]).name@ != target.player_id@,
            },
    {
        self.player_from_frontend_card_target(target)
    }

    /// The seat of the player the target names, when it names a player.
    pub fn player_from_frontend_target(&self, target: &FrontendTarget) -> (r: Result<usize, String>)
        ensures
            match r {
                Ok(pi) => target matches FrontendTarget::Player(name) && first_named(self.players@, name@, pi as int),
                Err(e) => e@ == "Unable to find target"@ && match target {
                    FrontendTarget::Player(name) => forall|j: int| 0 <= j < self.players@.len() ==> (#[trigger] self.players@[j]).name@ != name@,
                    FrontendTarget::Card(_) => true,
                },
            },
    {
        match target {
            FrontendTarget::Player(name) => match find_player(&self.players, name) {
                Some(pi) => Ok(pi),
                None => Err("Unable to find target".to_string()),
            },
            FrontendTarget::Card(_) => Err("Unable to find target".to_string()),
        }
    }

    /// Whether the position is on the battlefield.
    pub fn card_in_play(&self, target: &FrontendCardTarget) -> (b: bool)
        ensures
            b == (target.pile == FrontendPileName::Play),
    {
        target.pile == FrontendPileName::Play
    }

    /// A copy of the card at the given position.
    pub fn card_from_frontend_card_target(&self, target: &FrontendCardTarget) -> (c: Card)
        requires
            exists|pi: int| first_named(self.players@, target.player_id@, pi)
                && 0 <= target.card_index < pile_of(self.players@[pi], target.pile).len(),
        ensures
            forall|pi: int| first_named(self.players@, target.player_id@, pi)
                ==> same_card(c, pile_of(self.players@[pi], target.pile)[target.card_index as int]),
    {
        let pi = match find_player(&self.players, &target.player_id) {
            Some(pi) => pi,
            None => 0,
        };
        proof {
            let qi = choose|qi: int| first_named(self.players@, target.player_id@, qi) && 0 <= target.card_index < pile_of(self.players@[qi], target.pile).len();
            crate::effects::lemma_first_named_unique(self.players@, target.player_id@, pi as int, qi);
            assert forall|q: int| first_named(self.players@, target.player_id@, q) implies q == pi by {
                crate::effects::lemma_first_named_unique(self.players@, target.player_id@, pi as int, q);
            }
        }
        let player = &self.players[pi];
        let index = target.card_index as usize;
        match target.pile {
            FrontendPileName::Deck => player.deck.draw_pile[index].copy(),
            FrontendPileName::Hand => player.cards_in_hand[index].copy(),
            FrontendPileName::Play => player.cards_in_play[index].copy(),
            FrontendPileName::Spell => player.spells[index].copy(),
            FrontendPileName::Exiled => player.deck.exiled[index].copy(),
            FrontendPileName::Graveyard => player.deck.graveyard[index].copy(),
        }
    }

    /// Takes the card at the given position out of its pile.
    pub fn remove_from_frontend_target(&mut self, target: &FrontendCardTarget) -> (c: Card)
        requires
            exists|pi: int| first_named(old(self).players@, target.player_id@, pi)
                && 0 <= target.card_index < pile_of(old(self).players@[pi], target.pile).len(),
        ensures
            forall|pi: int| first_named(old(self).players@, target.player_id@, pi) ==> {
                let old_pile = pile_of(old(self).players@[pi], target.pile);
                &&& c == old_pile[target.card_index as int]
                &&& final(self).players@.len() == old(self).players@.len()
                &&& forall|j: int| 0 <= j < old(self).players@.len() && j != pi ==> #[trigger] final(self).players@[j] == old(self).players@[j]
                &&& pile_replaced(old(self).players@[pi], final(self).players@[pi], target.pile, old_pile.remove(target.card_index as int))
            },
            final(self).current_turn == old(self).current_turn,
            final(self).turn_number == old(self).turn_number,
    {
        let pi = match find_player(&self.players, &target.player_id) {
            Some(pi) => pi,
            None => 0,
        };
        proof {
            assert forall|q: int| first_named(self.players@, target.player_id@, q) implies q == pi by {
                let qi = choose|qi: int| first_named(self.players@, target.player_id@, qi) && 0 <= target.card_index < pile_of(self.players@[qi], target.pile).len();
                crate::effects::lemma_first_named_unique(self.players@, target.player_id@, pi as int, qi);
                crate::effects::lemma_first_named_unique(self.players@, target.player_id@, pi as int, q);
            }
        }
        let ghost p0 = self.players@[pi as int];
        let index = target.card_index as usize;
        let mut player = self.players.remove(pi);
        let card = match target.pile {
            FrontendPileName::Deck => player.deck.draw_pile.remove(index),
            FrontendPileName::Hand => player.cards_in_hand.remove(index),
            FrontendPileName::Play => player.cards_in_play.remove(index),
            FrontendPileName::Spell => player.spells.remove(index),
            FrontendPileName::Exiled => player.deck.exiled.remove(index),
            FrontendPileName::Graveyard => player.deck.graveyard.remove(index),
        };
        proof {
            assert(pile_replaced(p0, player, target.pile, pile_of(p0, target.pile).remove(index as int)));
        }
        self.players.insert(pi, player);
        proof {
            assert forall|j: int| 0 <= j < old(self).players@.len() && j != pi implies #[trigger] self.players@[j] == old(self).players@[j] by {
                if j < pi {
                    assert(self.players@[j] == old(self).players@[j]);
                } else {
                    assert(self.players@[j] == old(self).players@[j]);
                }
            }
        }
        card
    }

    /// The position the client would use for the card: its first place, in
    /// seating order, in a hand, on the stack, on the battlefield or in a
    /// draw pile.
    pub fn frontend_target_from_card(&self, card: &Card) -> (r: Result<FrontendCardTarget, String>)
        ensures
            match r {
                Ok(t) => locates(self.players@, card.id@, t),
                Err(e) => e@ == "Unable to find frontend target for card "@ + card.name@
                    && forall|pi: int| 0 <= pi < self.players@.len() ==> !holds_card(#[trigger] self.players@[pi], card.id@),
            },
    {
        match self.locate_card(&card.id) {
            Some(t) => Ok(t),
            None => {
                let mut message = "Unable to find frontend target for card ".to_string();
                message.append(&card.name);
                Err(message)
            },
        }
    }

    /// The position the client would use for the card with the given id, as
    /// `frontend_target_from_card` finds it; none when no player holds it.
    pub fn locate_card(&self, id: &String) -> (r: Option<FrontendCardTarget>)
        ensures
            match r {
                Some(t) => locates(self.players@, id@, t),
                None => forall|pi: int| 0 <= pi < self.players@.len() ==> !holds_card(#[trigger] self.players@[pi], id@),
            },
    {
        let mut pi: usize = 0;
        while pi < self.players.len()
            invariant
                pi <= self.players@.len(),
                forall|pj: int| 0 <= pj < pi ==> !holds_card(#[trigger] self.players@[pj], id@),
            decreases self.players@.len() - pi,
        {
            let player = &self.players[pi];
            let ghost pv = self.players@[pi as int];
            let found = match position_in(&player.cards_in_hand, &id) {
                Some(k) => Some((k, FrontendPileName::Hand)),
                None => match position_in(&player.spells, &id) {
                    Some(k) => Some((k, FrontendPileName::Spell)),
                    None => match position_in(&player.cards_in_play, &id) {
                        Some(k) => Some((k, FrontendPileName::Play)),
                        None => match position_in(&player.deck.draw_pile, &id) {
                            Some(k) => Some((k, FrontendPileName::Deck)),
                            None => None,
                        },
                    },
                },
            };
            match found {
                Some((k, pile)) => {
                    let t = FrontendCardTarget { card_index: k as i32, pile, player_id: player.name.clone() };
                    proof {
                        assert(pile_of(self.players@[pi as int], t.pile)[k as int].id@ == id@);
                        assert(locates(self.players@, id@, t));
                    }
                    return Some(t);
                },
                None => {},
            }
            pi = pi + 1;
        }
        None
    }

    /// Forgets the combat damage of every creature in play.
    pub fn reset_creature_damage(&mut self)
        ensures
            final(self).players@.len() == old(self).players@.len(),
            forall|pi: int| 0 <= pi < old(self).players@.len() ==> {
                &&& #[trigger] final(self).players@[pi] == (Player { cards_in_play: final(self).players@[pi].cards_in_play, ..old(self).players@[pi] })
                &&& final(self).players@[pi].cards_in_play@.len() == old(self).players@[pi].cards_in_play@.len()
                &&& forall|ci: int| 0 <= ci < old(self).players@[pi].cards_in_play@.len() ==>
                    #[trigger] final(self).players@[pi].cards_in_play@[ci] == creature_reset(old(self).players@[pi].cards_in_play@[ci])
            },
            *final(self) == (Game { players: final(self).players, ..*old(self) }),
    {
        let ghost g0 = *self;
        let mut i: usize = 0;
        while i < self.players.len()
            invariant
                i <= self.players@.len(),
                self.players@.len() == old(self).players@.len(),
                *self == (Game { players: self.players, ..g0 }),
                g0 == *old(self),
                forall|pi: int| i <= pi < self.players@.len() ==> #[trigger] self.players@[pi] == old(self).players@[pi],
                forall|pi: int| 0 <= pi < i ==> {
                    &&& #[trigger] self.players@[pi] == (Player { cards_in_play: self.players@[pi].cards_in_play, ..old(self).players@[pi] })
                    &&& self.players@[pi].cards_in_play@.len() == old(self).players@[pi].cards_in_play@.len()
                    &&& forall|ci: int| 0 <= ci < old(self).players@[pi].cards_in_play@.len() ==>
                        #[trigger] self.players@[pi].cards_in_play@[ci] == creature_reset(old(self).players@[pi].cards_in_play@[ci])
                },
            decreases self.players@.len() - i,
        {
            let mut p = self.players.remove(i);
            reset_damage_of(&mut p.cards_in_play);
            self.players.insert(i, p);
            i = i + 1;
        }
    }

    /// Takes the players whose health is gone out of the game, marked as no
    /// longer alive, and gives them back.
    pub fn handle_deaths(&mut self) -> (defeated: Vec<Player>)
        requires
            health_countable(old(self).players@),
        ensures
            final(self).players@ == old(self).players@.filter(|p: Player| standing(p)),
            defeated@.len() == old(self).players@.filter(|p: Player| !standing(p)).len(),
            forall|k: int| 0 <= k < defeated@.len() ==> #[trigger] defeated@[k]
                == (Player { is_alive: false, ..old(self).players@.filter(|p: Player| !standing(p))[k] }),
            final(self).current_turn == old(self).current_turn,
            final(self).turn_number == old(self).turn_number,
            *final(self) == (Game { players: final(self).players, ..*old(self) }),
            forall|k: int| 0 <= k < final(self).players@.len() ==> (#[trigger] final(self).players@[k]).stat_manager.total(StatType::Health) > 0,
            forall|k: int| 0 <= k < old(self).players@.len() && (#[trigger] old(self).players@[k]).stat_manager.total(StatType::Health) > 0
                ==> final(self).players@.contains(old(self).players@[k]),
            forall|k: int| 0 <= k < defeated@.len() ==> (#[trigger] defeated@[k]).stat_manager.total(StatType::Health) <= 0 && !defeated@[k].is_alive,
    {
        proof {
            law_deaths_by_health(old(self).players@, old(self).players@.filter(|p: Player| standing(p)), old(self).players@.filter(|p: Player| !standing(p)));
        }
        let mut rest: Vec<Player> = Vec::new();
        std::mem::swap(&mut rest, &mut self.players);
        let total: usize = rest.len();
        let ghost all = rest@;
        let ghost up = |p: Player| standing(p);
        let ghost down = |p: Player| !standing(p);
        let mut alive: Vec<Player> = Vec::new();
        let mut defeated: Vec<Player> = Vec::new();
        let mut i: usize = 0;
        while rest.len() > 0
            invariant
                i <= all.len() == total,
                rest@ == all.subrange(i as int, all.len() as int),
                health_countable(all),
                up == (|p: Player| standing(p)),
                down == (|p: Player| !standing(p)),
                alive@ == all.subrange(0, i as int).filter(up),
                defeated@.len() == all.subrange(0, i as int).filter(down).len(),
                forall|k: int| 0 <= k < defeated@.len() ==> #[trigger] defeated@[k]
                    == (Player { is_alive: false, ..all.subrange(0, i as int).filter(down)[k] }),
            decreases rest@.len(),
        {
            let mut p = rest.remove(0);
            proof {
                assert(p == all[i as int]);
                assert(all.subrange(0, i as int + 1).drop_last() =~= all.subrange(0, i as int));
                assert(all.subrange(0, i as int + 1).last() == p);
                reveal_with_fuel(Seq::filter, 1);
            }
            let health = p.stat_manager.get_stat_value(StatType::Health);
            let ghost before = defeated@;
            if health <= 0 {
                p.is_alive = false;
                defeated.push(p);
                proof {
                    assert forall|k: int| 0 <= k < defeated@.len() implies #[trigger] defeated@[k]
                        == (Player { is_alive: false, ..all.subrange(0, i as int + 1).filter(down)[k] }) by {
                        if k < before.len() {
                            assert(defeated@[k] == before[k]);
                        }
                    }
                }
            } else {
                alive.push(p);
            }
            i = i + 1;
            proof {
                assert(rest@ =~= all.subrange(i as int, all.len() as int));
            }
        }
        proof {
            assert(all.subrange(0, all.len() as int) =~= all);
        }
        self.players = alive;
        defeated
    }

    /// Starts the given player's turn: a fresh turn in its untap phase, the
    /// turn count moved on, creature damage and this turn's records
    /// forgotten, every player's health noted, and the player's charging
    /// cards moved one turn on.
    pub fn start_turn(&mut self, player_index: usize)
        requires
            player_index < old(self).players@.len(),
            health_countable(old(self).players@),
            old(self).turn_number < usize::MAX,
        ensures
            turn_started(*old(self), *final(self), player_index),
    {
        self.reset_turn_messages();
        self.current_turn = Some(Turn::new(player_index, self.turn_number));
        self.turn_number = self.turn_number + 1;
        self.reset_creature_damage();
        let ghost reset = self.players@;
        proof {
            assert forall|pi: int| 0 <= pi < reset.len() implies {
                &&& (#[trigger] reset[pi]).stat_manager.stats@.len() < 0x1_0000_0000
                &&& i16::MIN <= reset[pi].stat_manager.total(StatType::Health) <= i16::MAX
                &&& reset[pi].stat_manager == old(self).players@[pi].stat_manager
            } by {
                assert(reset[pi] == (Player { cards_in_play: reset[pi].cards_in_play, ..old(self).players@[pi] }));
            }
        }
        self.triggers_played_this_turn = Vec::new();
        self.cards_triggered_this_turn = Vec::new();
        let ghost g1 = *self;
        let mut i: usize = 0;
        while i < self.players.len()
            invariant
                *self == (Game { players: self.players, ..g1 }),
                i <= self.players@.len(),
                self.players@.len() == reset.len(),
                forall|pi: int| 0 <= pi < reset.len() ==> {
                    &&& (#[trigger] reset[pi]).stat_manager.stats@.len() < 0x1_0000_0000
                    &&& i16::MIN <= reset[pi].stat_manager.total(StatType::Health) <= i16::MAX
                },
                forall|pi: int| i <= pi < reset.len() ==> #[trigger] self.players@[pi] == reset[pi],
                forall|pi: int| 0 <= pi < i ==> #[trigger] self.players@[pi] == (Player {
                    health_at_start_of_round: reset[pi].stat_manager.total(StatType::Health) as i16,
                    ..reset[pi]
                }),
            decreases self.players@.len() - i,
        {
            let mut p = self.players.remove(i);
            p.health_at_start_of_round = p.stat_manager.get_stat_value(StatType::Health);
            self.players.insert(i, p);
            i = i + 1;
        }
        let ghost noted = self.players@;
        let mut p = self.players.remove(player_index);
        p.advance_card_phases();
        self.players.insert(player_index, p);
        proof {
            assert forall|pi: int| 0 <= pi < old(self).players@.len() implies {
                &&& #[trigger] self.players@[pi] == (Player {
                    cards_in_play: self.players@[pi].cards_in_play,
                    health_at_start_of_round: old(self).players@[pi].stat_manager.total(StatType::Health) as i16,
                    ..old(self).players@[pi]
                })
                &&& self.players@[pi].cards_in_play@.len() == old(self).players@[pi].cards_in_play@.len()
                &&& forall|ci: int| 0 <= ci < old(self).players@[pi].cards_in_play@.len() ==>
                    #[trigger] self.players@[pi].cards_in_play@[ci] == if pi == player_index {
                        Card { current_phase: charged_phase(old(self).players@[pi].cards_in_play@[ci].current_phase), ..creature_reset(old(self).players@[pi].cards_in_play@[ci]) }
                    } else {
                        creature_reset(old(self).players@[pi].cards_in_play@[ci])
                    }
            } by {
                assert(reset[pi] == (Player { cards_in_play: reset[pi].cards_in_play, ..old(self).players@[pi] }));
                assert(noted[pi] == (Player { health_at_start_of_round: reset[pi].stat_manager.total(StatType::Health) as i16, ..reset[pi] }));
                if pi == player_index {
                    assert(self.players@[pi] == p);
                    assert forall|ci: int| 0 <= ci < old(self).players@[pi].cards_in_play@.len() implies
                        #[trigger] p.cards_in_play@[ci] == Card { current_phase: charged_phase(old(self).players@[pi].cards_in_play@[ci].current_phase), ..creature_reset(old(self).players@[pi].cards_in_play@[ci]) } by {
                        assert(noted[pi].cards_in_play@[ci] == reset[pi].cards_in_play@[ci]);
                        assert(reset[pi].cards_in_play@[ci] == creature_reset(old(self).players@[pi].cards_in_play@[ci]));
                    }
                } else {
                    assert(self.players@[pi] == noted[pi]);
                    assert forall|ci: int| 0 <= ci < old(self).players@[pi].cards_in_play@.len() implies
                        #[trigger] self.players@[pi].cards_in_play@[ci] == creature_reset(old(self).players@[pi].cards_in_play@[ci]) by {
                        assert(noted[pi].cards_in_play@[ci] == reset[pi].cards_in_play@[ci]);
                        assert(reset[pi].cards_in_play@[ci] == creature_reset(old(self).players@[pi].cards_in_play@[ci]));
                    }
                }
            }
        }
    }

    /// Whether a tapped creature is in play while the list names a card
    /// other than it.
    pub fn has_tapped_creature_excluding(&self, cards: &Vec<String>) -> (b: bool)
        ensures
            b == exists|pi: int, ci: int, k: int| {
                &&& 0 <= pi < self.players@.len()
                &&& 0 <= ci < self.players@[pi].cards_in_play@.len()
                &&& 0 <= k < cards@.len()
                &&& (#[trigger] self.players@[pi].cards_in_play@[ci]).tapped
                &&& self.players@[pi].cards_in_play@[ci].card_type == CardType::Creature
                &&& (#[trigger] cards@[k])@ != self.players@[pi].cards_in_play@[ci].id@
            },
    {
        let mut pi: usize = 0;
        while pi < self.players.len()
            invariant
                pi <= self.players@.len(),
                forall|qi: int, ci: int, k: int| 0 <= qi < pi && 0 <= ci < self.players@[qi].cards_in_play@.len() && 0 <= k < cards@.len()
                    && (#[trigger] self.players@[qi].cards_in_play@[ci]).tapped && self.players@[qi].cards_in_play@[ci].card_type == CardType::Creature
                    ==> (#[trigger] cards@[k])@ == self.players@[qi].cards_in_play@[ci].id@,
            decreases self.players@.len() - pi,
        {
            let mut ci: usize = 0;
            while ci < self.players[pi].cards_in_play.len()
                invariant
                    pi < self.players@.len(),
                    ci <= self.players@[pi as int].cards_in_play@.len(),
                    forall|qi: int, cj: int, k: int| 0 <= qi < pi && 0 <= cj < self.players@[qi].cards_in_play@.len() && 0 <= k < cards@.len()
                        && (#[trigger] self.players@[qi].cards_in_play@[cj]).tapped && self.players@[qi].cards_in_play@[cj].card_type == CardType::Creature
                        ==> (#[trigger] cards@[k])@ == self.players@[qi].cards_in_play@[cj].id@,
                    forall|cj: int, k: int| 0 <= cj < ci && 0 <= k < cards@.len()
                        && (#[trigger] self.players@[pi as int].cards_in_play@[cj]).tapped && self.players@[pi as int].cards_in_play@[cj].card_type == CardType::Creature
                        ==> (#[trigger] cards@[k])@ == self.players@[pi as int].cards_in_play@[cj].id@,
                decreases self.players@[pi as int].cards_in_play@.len() - ci,
            {
                let card = &self.players[pi].cards_in_play[ci];
                if card.tapped && card.card_type == CardType::Creature {
                    let mut k: usize = 0;
                    while k < cards.len()
                        invariant
                            pi < self.players@.len(),
                            ci < self.players@[pi as int].cards_in_play@.len(),
                            *card == self.players@[pi as int].cards_in_play@[ci as int],
                            card.tapped,
                            card.card_type == CardType::Creature,
                            k <= cards@.len(),
                            forall|j: int| 0 <= j < k ==> (#[trigger] cards@[j])@ == card.id@,
                        decreases cards@.len() - k,
                    {
                        if cards[k] != card.id {
                            proof {
                                assert(self.players@[pi as int].cards_in_play@[ci as int].tapped);
                                assert(cards@[k as int]@ != self.players@[pi as int].cards_in_play@[ci as int].id@);
                            }
                            return true;
                        }
                        k = k + 1;
                    }
                }
                ci = ci + 1;
            }
            pi = pi + 1;
        }
        false
    }

    /// The pending actions of the omnipresent triggers of the cards in play,
    /// each aimed at its card's target.
    pub fn collect_omnipresent_actions(&self) -> (r: Vec<GameAction>)
        ensures
            same_game_actions(r@, picked(table_pairs(self.players@), omnipresent_flags(table_pairs(self.players@)), TargetPolicy::CardsOwn)),
    {
        let r = collect_in_play(&self.players, &(), is_omnipresent, &TargetPolicy::CardsOwn);
        proof {
            let pairs = table_pairs(self.players@);
            let flags = choose|flags: Seq<bool>| {
                &&& flags.len() == pairs.len()
                &&& forall|k: int| 0 <= k < flags.len() ==> call_ensures(is_omnipresent, (&(), &pairs[k].0, &pairs[k].1), #[trigger] flags[k])
                &&& same_game_actions(r@, picked(pairs, flags, TargetPolicy::CardsOwn))
            };
            assert(flags =~= omnipresent_flags(pairs));
        }
        r
    }

    /// Whether it is the turn of the player with the given name.
    pub fn is_turn_of(&self, name: &String) -> (b: bool)
        ensures
            b == is_current_player(*self, name@),
    {
        match &self.current_turn {
            Some(t) => {
                if 0 <= t.current_player_index && (t.current_player_index as usize) < self.players.len() {
                    self.players[t.current_player_index as usize].name == *name
                } else {
                    false
                }
            },
            None => false,
        }
    }

    /// The pending actions that playing the card sets off, aimed at the
    /// given target: its own entering the battlefield, and the tribe and
    /// other-card triggers of its owner's cards in play.
    pub fn collect_card_played_actions(&self, card: &Card, target: &Option<FrontendTarget>) -> (r: Vec<GameAction>)
        requires
            card.owner is Some ==> forall|k: int| 0 <= k < table_pairs(self.players@).len()
                ==> !played_unhandled(card.id@, #[trigger] table_pairs(self.players@)[k].0, table_pairs(self.players@)[k].1),
        ensures
            match card.owner {
                None => r@.len() == 0,
                Some(owner) => same_game_actions(r@, picked(table_pairs(self.players@),
                    played_flags(table_pairs(self.players@), card.id@, owner@, is_current_player(*self, owner@)),
                    TargetPolicy::Given(*target))),
            },
            forall|i: int| 0 <= i < r@.len() ==> exists|k: int| #![trigger table_pairs(self.players@)[k]] {
                &&& 0 <= k < table_pairs(self.players@).len()
                &&& same_game_action(#[trigger] r@[i], pair_action(table_pairs(self.players@)[k], TargetPolicy::Given(*target)))
                &&& !(table_pairs(self.players@)[k].0.id@ == card.id@ && table_pairs(self.players@)[k].1.trigger_type is OtherCardPlayed)
            },
    {
        match &card.owner {
            None => Vec::new(),
            Some(owner) => {
                let ctx = (card.id.clone(), owner.clone(), self.is_turn_of(owner));
                let policy = TargetPolicy::Given(copy_opt_target(target));
                let r = collect_in_play(&self.players, &ctx, answers_played_pick, &policy);
                proof {
                    let pairs = table_pairs(self.players@);
                    let flags = choose|flags: Seq<bool>| {
                        &&& flags.len() == pairs.len()
                        &&& forall|k: int| 0 <= k < flags.len() ==> call_ensures(answers_played_pick, (&ctx, &pairs[k].0, &pairs[k].1), #[trigger] flags[k])
                        &&& same_game_actions(r@, picked(pairs, flags, policy))
                    };
                    assert(flags =~= played_flags(pairs, card.id@, owner@, is_current_player(*self, owner@)));
                    lemma_picked_same_target(pairs, flags, policy, TargetPolicy::Given(*target));
                    let given = TargetPolicy::Given(*target);
                    let want = picked(pairs, flags, given);
                    law_played_card_ignores_itself(pairs, card.id@, owner@, is_current_player(*self, owner@), given);
                    assert(same_game_actions(r@, want));
                    assert forall|i: int| 0 <= i < r@.len() implies exists|k: int| #![trigger pairs[k]] {
                        &&& 0 <= k < pairs.len()
                        &&& same_game_action(#[trigger] r@[i], pair_action(pairs[k], given))
                        &&& !(pairs[k].0.id@ == card.id@ && pairs[k].1.trigger_type is OtherCardPlayed)
                    } by {
                        assert(same_game_action(r@[i], want[i]));
                        let k = choose|k: int| #![trigger pairs[k]] {
                            &&& 0 <= k < pairs.len()
                            &&& want[i] == pair_action(pairs[k], given)
                            &&& !(pairs[k].0.id@ == card.id@ && pairs[k].1.trigger_type is OtherCardPlayed)
                        };
                    }
                }
                r
            },
        }
    }

    /// The pending actions the current phase sets off: for each seat, the
    /// player's triggers that fire, then the phase triggers of the player's
    /// cards in play, and the destruction of each useless card.
    pub fn collect_actions_for_phase(&self) -> (r: Vec<GameAction>)
        requires
            self.current_turn.is_some(),
            players_countable(self.players@),
        ensures
            same_game_actions(r@, phase_actions(self.players@, self.current_turn.unwrap(), self.effect_manager.effects@)),
    {
        let turn = match &self.current_turn {
            Some(t) => *t,
            None => Turn::new(0, 0),
        };
        let ghost effects = self.effect_manager.effects@;
        let mut actions: Vec<GameAction> = Vec::new();
        let mut pi: usize = 0;
        while pi < self.players.len()
            invariant
                pi <= self.players@.len(),
                turn == self.current_turn.unwrap(),
                effects == self.effect_manager.effects@,
                players_countable(self.players@),
                same_game_actions(actions@, phase_actions(self.players@.subrange(0, pi as int), turn, effects)),
            decreases self.players@.len() - pi,
        {
            let player = &self.players[pi];
            let ghost base = phase_actions(self.players@.subrange(0, pi as int), turn, effects);
            proof {
                assert(self.players@.subrange(0, pi as int + 1).drop_last() =~= self.players@.subrange(0, pi as int));
                assert(crate::player::player_triggers_countable(self.players@[pi as int]));
            }
            let mut t: usize = 0;
            while t < player.triggers.len()
                invariant
                    *player == self.players@[pi as int],
                    crate::player::player_triggers_countable(*player),
                    t <= player.triggers@.len(),
                    same_game_actions(actions@, base + player_actions(player.triggers@.subrange(0, t as int), turn, pi, player.mana_pool)),
                decreases player.triggers@.len() - t,
            {
                let trigger = &player.triggers[t];
                proof {
                    assert(player.triggers@.subrange(0, t as int + 1).drop_last() =~= player.triggers@.subrange(0, t as int));
                    assert(match player.triggers@[t as int].trigger_type {
                        ActionTriggerType::AbilityWithinPhases(_, m, _, _, _) => crate::player::mana_arith_ok(player.mana_pool, m@),
                        _ => true,
                    });
                }
                let ghost before = actions@;
                if trigger.applies_in_phase(&turn, pi, player) {
                    actions.push(GameAction::Player(PlayerActionWrapper { action: trigger.action, player: pi }));
                }
                proof {
                    let want = base + player_actions(player.triggers@.subrange(0, t as int + 1), turn, pi, player.mana_pool);
                    let had = base + player_actions(player.triggers@.subrange(0, t as int), turn, pi, player.mana_pool);
                    assert forall|i: int| 0 <= i < actions@.len() implies same_game_action(#[trigger] actions@[i], want[i]) by {
                        if i < before.len() {
                            assert(actions@[i] == before[i]);
                            assert(same_game_action(before[i], had[i]));
                        }
                    }
                }
                t = t + 1;
            }
            proof {
                assert(player.triggers@.subrange(0, player.triggers@.len() as int) =~= player.triggers@);
            }
            let ghost base2 = base + player_actions(player.triggers@, turn, pi, player.mana_pool);
            let is_current = turn.current_player_index == pi as i32;
            let mut c: usize = 0;
            while c < player.cards_in_play.len()
                invariant
                    *player == self.players@[pi as int],
                    effects == self.effect_manager.effects@,
                    is_current == (turn.current_player_index == pi as i32),
                    c <= player.cards_in_play@.len(),
                    same_game_actions(actions@, base2 + cards_phase_actions(player.cards_in_play@.subrange(0, c as int), turn, is_current, effects)),
                decreases player.cards_in_play@.len() - c,
            {
                let card = &player.cards_in_play[c];
                let ghost base3 = base2 + cards_phase_actions(player.cards_in_play@.subrange(0, c as int), turn, is_current, effects);
                proof {
                    assert(player.cards_in_play@.subrange(0, c as int + 1).drop_last() =~= player.cards_in_play@.subrange(0, c as int));
                }
                let mut k: usize = 0;
                while k < card.triggers.len()
                    invariant
                        *card == player.cards_in_play@[c as int],
                        k <= card.triggers@.len(),
                        same_game_actions(actions@, base3 + card_phase_actions(*card, card.triggers@.subrange(0, k as int), turn, is_current)),
                    decreases card.triggers@.len() - k,
                {
                    let trigger = &card.triggers[k];
                    proof {
                        assert(card.triggers@.subrange(0, k as int + 1).drop_last() =~= card.triggers@.subrange(0, k as int));
                    }
                    let ghost before = actions@;
                    match &trigger.trigger_type {
                        ActionTriggerType::PhaseStarted(trigger_phase, phase_target) => {
                            let fits = match phase_target {
                                PhaseTarget::Owner => is_current,
                                PhaseTarget::Opponent => !is_current,
                                PhaseTarget::Any => true,
                            };
                            if crate::action::phases_contain(trigger_phase, turn.phase) && fits {
                                actions.push(GameAction::Card(CardActionWrapper {
                                    card: card.id.clone(),
                                    action: trigger.action.copy(),
                                    target: copy_opt_target(&card.target),
                                    ability_id: Some(trigger.id.clone()),
                                }));
                            }
                        },
                        _ => {},
                    }
                    proof {
                        let want = base3 + card_phase_actions(*card, card.triggers@.subrange(0, k as int + 1), turn, is_current);
                        let had = base3 + card_phase_actions(*card, card.triggers@.subrange(0, k as int), turn, is_current);
                        assert forall|i: int| 0 <= i < actions@.len() implies same_game_action(#[trigger] actions@[i], want[i]) by {
                            if i < before.len() {
                                assert(actions@[i] == before[i]);
                                assert(same_game_action(before[i], had[i]));
                            }
                        }
                    }
                    k = k + 1;
                }
                proof {
                    assert(card.triggers@.subrange(0, card.triggers@.len() as int) =~= card.triggers@);
                }
                let has_effects = self.effect_manager.has_effects(&card.id);
                let ghost before = actions@;
                if card.is_useless(has_effects) {
                    actions.push(GameAction::Card(CardActionWrapper {
                        action: CardAction::DestroySelf(DestroySelf {}),
                        card: card.id.clone(),
                        target: None,
                        ability_id: None,
                    }));
                }
                proof {
                    let want = base2 + cards_phase_actions(player.cards_in_play@.subrange(0, c as int + 1), turn, is_current, effects);
                    let had = base3 + card_phase_actions(*card, card.triggers@, turn, is_current);
                    assert(has_effects == has_effect_from(effects, card.id@));
                    assert(want =~= had + (if card_useless(*card, has_effect_from(effects, card.id@)) { seq![destroy_self_action(*card)] } else { Seq::empty() }));
                    assert forall|i: int| 0 <= i < actions@.len() implies same_game_action(#[trigger] actions@[i], want[i]) by {
                        if i < before.len() {
                            assert(actions@[i] == before[i]);
                            assert(same_game_action(before[i], had[i]));
                        }
                    }
                }
                c = c + 1;
            }
            proof {
                assert(player.cards_in_play@.subrange(0, player.cards_in_play@.len() as int) =~= player.cards_in_play@);
                assert(phase_actions(self.players@.subrange(0, pi as int + 1), turn, effects)
                    =~= base2 + cards_phase_actions(player.cards_in_play@, turn, is_current, effects));
            }
            pi = pi + 1;
        }
        proof {
            assert(self.players@.subrange(0, self.players@.len() as int) =~= self.players@);
        }
        actions
    }

    /// Seats a player at the table, as the owner of every card of its deck,
    /// and gives back the seat.
    pub fn add_player(&mut self, player: Player) -> (seat: usize)
        requires
            old(self).players@.len() < usize::MAX,
        ensures
            seat == old(self).players@.len(),
            final(self).players@.len() == old(self).players@.len() + 1,
            final(self).players@.drop_last() == old(self).players@,
            final(self).players@.last() == (Player { deck: final(self).players@.last().deck, ..player }),
            final(self).players@.last().deck.map@.len() == player.deck.map@.len(),
            final(self).players@.last().deck.draw_pile@.len() == player.deck.draw_pile@.len(),
            forall|i: int| 0 <= i < player.deck.draw_pile@.len() ==>
                crate::card::owned_by(#[trigger] final(self).players@.last().deck.draw_pile@[i], player.name@),
            *final(self) == (Game { players: final(self).players, ..*old(self) }),
    {
        let mut player = player;
        let name = player.name.clone();
        player.deck.set_owner(&name);
        let ghost before = self.players@;
        self.players.push(player);
        proof {
            assert(self.players@.drop_last() =~= before);
        }
        self.players.len() - 1
    }
}

} // verus!

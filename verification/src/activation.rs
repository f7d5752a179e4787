//! A player using an ability of one of their cards: which action it sets
//! off, what it costs, and whether the card goes on the stack first.
use vstd::prelude::*;
use crate::action::{CardAction, CardActionWrapper, GameAction, same_game_actions, same_game_action};
use crate::card::{Card, ability_positions, is_land, is_play_ability, is_trigger_ability, owner_counts_costs, same_card};
use crate::execute::{target_card, target_ok, target_seat};
use crate::game::{AbilityDetails, ActionType, FrontendCardTarget, FrontendPileName, FrontendTarget, Game, copy_opt_target, is_current_player, pile_of, same_opt_target};
use crate::mana::ManaType;
use crate::player::{Player, mana_arith_ok, payment_result, pool_after_paying};
use crate::table::{find_player, first_named};
use crate::turn::TurnPhase;

verus! {

/// `r` lists the abilities of the card as `Card::abilities` gives them when
/// no trigger asks anything more of the table.
#[verifier::opaque]
pub open spec fn abilities_are(card: Card, phase: TurnPhase, in_play: bool, owner: Option<Player>, current_player_is_owner: Option<bool>, r: Seq<AbilityDetails>) -> bool {
    let owner_ref = match owner { Some(p) => Some(&p), None => None };
    &&& r.len() == ability_positions(card.triggers@, phase).len() + (if in_play { 0int } else { 1int })
    &&& forall|k: int| 0 <= k < ability_positions(card.triggers@, phase).len() ==> {
        let i = ability_positions(card.triggers@, phase)[k];
        is_trigger_ability(#[trigger] r[k], card.triggers@[i], card, phase, in_play, owner_ref, current_player_is_owner, None)
    }
    &&& !in_play ==> is_play_ability(r.last(), card, phase, owner_ref, current_player_is_owner)
}

/// The owner, taken by value.
pub open spec fn owner_value(owner: Option<&Player>) -> Option<Player> {
    match owner { Some(p) => Some(*p), None => None }
}

/// The first ability of the list with the given id, if any.
pub open spec fn first_with_id(abs: Seq<AbilityDetails>, id: Seq<char>) -> Option<int> {
    if exists|j: int| 0 <= j < abs.len() && (#[trigger] abs[j]).id@ == id {
        Some(choose|j: int| 0 <= j < abs.len() && (#[trigger] abs[j]).id@ == id
            && forall|i: int| 0 <= i < j ==> (#[trigger] abs[i]).id@ != id)
    } else {
        None
    }
}

pub proof fn lemma_first_with_id(abs: Seq<AbilityDetails>, id: Seq<char>, j0: int)
    requires
        0 <= j0 < abs.len(),
        abs[j0].id@ == id,
    ensures
        exists|j: int| 0 <= j < abs.len() && (#[trigger] abs[j]).id@ == id
            && forall|i: int| 0 <= i < j ==> (#[trigger] abs[i]).id@ != id,
    decreases j0,
{
    if forall|i: int| 0 <= i < j0 ==> (#[trigger] abs[i]).id@ != id {
        assert(abs[j0].id@ == id);
    } else {
        let i = choose|i: int| 0 <= i < j0 && (#[trigger] abs[i]).id@ == id;
        lemma_first_with_id(abs, id, i);
    }
}

/// What using the ability with the given id comes to: its action for the
/// card, aimed at the target, when the ability can be used, whether the card
/// is tapped for it, and the mana it costs; nothing at all when the card has
/// no such ability.
pub open spec fn manual_pick(abs: Seq<AbilityDetails>, id: Seq<char>, card_id: Seq<char>, target: Option<FrontendTarget>, r: (Vec<GameAction>, bool, Vec<ManaType>)) -> bool {
    match first_with_id(abs, id) {
        None => r.0@.len() == 0 && !r.1 && r.2@.len() == 0,
        Some(j) => {
            let a = abs[j];
            &&& r.2@ == a.mana_cost@
            &&& if a.meets_mana_requirements && a.meets_requirements_except_mana {
                &&& r.1 == a.tap_required
                &&& r.0@.len() == 1
                &&& same_game_action(r.0@[0], GameAction::Card(CardActionWrapper {
                    card: r.0@[0]->Card_0.card,
                    action: a.action.unwrap(),
                    target,
                    ability_id: Some(a.id),
                }))
                &&& r.0@[0]->Card_0.card@ == card_id
            } else {
                !r.1 && r.0@.len() == 0
            }
        },
    }
}

/// Every ability the card shows carries an action.
pub open spec fn abilities_act(abs: Seq<AbilityDetails>) -> bool {
    forall|j: int| 0 <= j < abs.len() ==> (#[trigger] abs[j]).action is Some
}

pub proof fn lemma_abilities_act(card: Card, phase: TurnPhase, in_play: bool, owner: Option<Player>, current_player_is_owner: Option<bool>, abs: Seq<AbilityDetails>)
    requires
        abilities_are(card, phase, in_play, owner, current_player_is_owner, abs),
    ensures
        abilities_act(abs),
{
    reveal(abilities_are);
    let n = ability_positions(card.triggers@, phase).len();
    assert forall|j: int| 0 <= j < abs.len() implies (#[trigger] abs[j]).action is Some by {
        if j < n {
            let i = ability_positions(card.triggers@, phase)[j];
            let owner_ref = match owner { Some(p) => Some(&p), None => None };
            assert(is_trigger_ability(abs[j], card.triggers@[i], card, phase, in_play, owner_ref, current_player_is_owner, None));
        } else {
            assert(!in_play);
            assert(abs[j] == abs.last());
        }
    }
}

/// The action a card's ability sets off, whether the card must be tapped
/// for it, and the mana it costs, as the card's abilities in the given phase
/// show them.
pub fn collect_manual_actions(
    card: &Card,
    in_play: bool,
    target: &Option<FrontendTarget>,
    trigger_id: &String,
    turn_phase: TurnPhase,
    owner: Option<&Player>,
    current_player_is_owner: Option<bool>,
) -> (r: (Vec<GameAction>, bool, Vec<ManaType>))
    requires
        owner_counts_costs(*card, owner),
    ensures
        exists|abs: Seq<AbilityDetails>| #[trigger] abilities_are(*card, turn_phase, in_play, owner_value(owner), current_player_is_owner, abs)
            && manual_pick(abs, trigger_id@, card.id@, *target, r),
{
    let abs = card.abilities(turn_phase, in_play, owner, current_player_is_owner, None);
    proof {
        reveal(abilities_are);
        assert(abilities_are(*card, turn_phase, in_play, owner_value(owner), current_player_is_owner, abs@));
        lemma_abilities_act(*card, turn_phase, in_play, owner_value(owner), current_player_is_owner, abs@);
    }
    let mut actions: Vec<GameAction> = Vec::new();
    let mut requires_tap = false;
    let mut mana: Vec<ManaType> = Vec::new();
    let mut j: usize = 0;
    while j < abs.len()
        invariant
            j <= abs@.len(),
            abilities_are(*card, turn_phase, in_play, owner_value(owner), current_player_is_owner, abs@),
            abilities_act(abs@),
            forall|i: int| 0 <= i < j ==> (#[trigger] abs@[i]).id@ != trigger_id@,
            actions@.len() == 0 && !requires_tap && mana@.len() == 0,
        decreases abs@.len() - j,
    {
        if abs[j].id == *trigger_id {
            proof {
                assert(exists|x: int| 0 <= x < abs@.len() && (#[trigger] abs@[x]).id@ == trigger_id@) by {
                    assert(abs@[j as int].id@ == trigger_id@);
                }
                let c = choose|x: int| 0 <= x < abs@.len() && (#[trigger] abs@[x]).id@ == trigger_id@
                    && forall|i: int| 0 <= i < x ==> (#[trigger] abs@[i]).id@ != trigger_id@;
                if c < j {
                    assert(abs@[c].id@ != trigger_id@);
                } else if j < c {
                    assert(abs@[j as int].id@ != trigger_id@);
                }
                assert(first_with_id(abs@, trigger_id@) == Some(j as int));
            }
            mana = crate::action::copy_mana(&abs[j].mana_cost);
            if abs[j].meets_mana_requirements && abs[j].meets_requirements_except_mana {
                requires_tap = abs[j].tap_required;
                proof {
                    assert(abs@[j as int].action is Some);
                }
                let action = match &abs[j].action {
                    Some(a) => a.copy(),
                    None => CardAction::Blank(crate::action::BlankAction {}),
                };
                actions.push(GameAction::Card(CardActionWrapper {
                    card: card.id.clone(),
                    action,
                    target: copy_opt_target(target),
                    ability_id: Some(abs[j].id.clone()),
                }));
            }
            proof {
                assert(manual_pick(abs@, trigger_id@, card.id@, *target, (actions, requires_tap, mana)));
            }
            return (actions, requires_tap, mana);
        }
        j = j + 1;
    }
    proof {
        assert(first_with_id(abs@, trigger_id@) is None);
    }
    (actions, requires_tap, mana)
}

/// The cost of the picked ability can be paid from a pool in which the
/// card's costs and an empty cost can be counted; a tapping ability that can
/// be used finds its card untapped and ready.
#[verifier::rlimit(60)]
pub proof fn lemma_pick_cost(c: Card, phase: TurnPhase, in_play: bool, owner: Option<Player>, cpo: Option<bool>,
    abs: Seq<AbilityDetails>, id: Seq<char>, target: Option<FrontendTarget>, pick: (Vec<GameAction>, bool, Vec<ManaType>), payer: Player)
    requires
        abilities_are(c, phase, in_play, owner, cpo, abs),
        manual_pick(abs, id, c.id@, target, pick),
        owner_counts_costs(c, Some(&payer)),
        mana_arith_ok(payer.mana_pool, Seq::empty()),
    ensures
        mana_arith_ok(payer.mana_pool, pick.2@),
        pick.1 ==> !c.tapped && c.current_phase == crate::card::CardPhase::Ready,
{
    reveal(abilities_are);
    let n = ability_positions(c.triggers@, phase).len();
    let owner_ref = match owner { Some(p) => Some(&p), None => None };
    assert(abs.len() == n + (if in_play { 0int } else { 1int }));
    assert(forall|k: int| 0 <= k < n ==> is_trigger_ability(#[trigger] abs[k], c.triggers@[ability_positions(c.triggers@, phase)[k]], c, phase, in_play, owner_ref, cpo, None));
    assert(!in_play ==> is_play_ability(abs.last(), c, phase, owner_ref, cpo));
    if exists|j: int| 0 <= j < abs.len() && (#[trigger] abs[j]).id@ == id {
        let j0 = choose|j: int| 0 <= j < abs.len() && (#[trigger] abs[j]).id@ == id;
        lemma_first_with_id(abs, id, j0);
    }
    match first_with_id(abs, id) {
        None => {
            assert(pick.2@ =~= Seq::<ManaType>::empty());
        },
        Some(j) => {
            assert(0 <= j < abs.len());
            if j < n {
                let i = ability_positions(c.triggers@, phase)[j];
                crate::card::lemma_ability_positions(c.triggers@, phase);
                assert(is_trigger_ability(abs[j], c.triggers@[i], c, phase, in_play, owner_ref, cpo, None));
                assert(match c.triggers@[i].trigger_type {
                    crate::action::ActionTriggerType::AbilityWithinPhases(_, m, _, _, _) => mana_arith_ok(payer.mana_pool, m@),
                    _ => true,
                });
                if abs[j].mana_cost@.len() == 0 {
                    assert(pick.2@ =~= Seq::<ManaType>::empty());
                }
            } else {
                assert(abs[j] == abs.last());
                assert(pick.2@ =~= Seq::<ManaType>::empty());
            }
        },
    }
}

/// The player picks, among the abilities of the card at the position as
/// `Card::abilities` shows them in the current phase, the one with the given
/// id: `pick` is what `manual_pick` says of it.
#[verifier::opaque]
pub open spec fn picked_ability(g: Game, card: FrontendCardTarget, target: Option<FrontendTarget>, id: Seq<char>, pick: (Vec<GameAction>, bool, Vec<ManaType>)) -> bool {
    let c = target_card(g.players@, card);
    let in_play = card.pile == FrontendPileName::Play;
    exists|abs: Seq<AbilityDetails>| #[trigger] abilities_are(c, g.current_turn.unwrap().phase, in_play,
        owner_of(g.players@, c), owner_turn(g, c), abs) && manual_pick(abs, id, c.id@, target, pick)
}

/// How an activated ability goes on: onto the stack, with priority to be
/// handed round when nobody holds it yet, or straight to its actions.
pub enum Activation {
    Stacked(bool),
    Resolve(Vec<GameAction>),
}

/// The card's owner, when the card names one who sits at the table.
pub open spec fn owner_of(players: Seq<Player>, c: Card) -> Option<Player> {
    match c.owner {
        Some(n) => if exists|o: int| first_named(players, n@, o) {
            Some(players[choose|o: int| first_named(players, n@, o)])
        } else {
            None
        },
        None => None,
    }
}

/// Whether it is the turn of the card's owner, when the card has one.
pub open spec fn owner_turn(g: Game, c: Card) -> Option<bool> {
    match c.owner {
        Some(n) => if exists|o: int| first_named(g.players@, n@, o) { Some(is_current_player(g, n@)) } else { None },
        None => None,
    }
}

/// The ability can be looked up and paid for: the turn is under way, the
/// position names a card, and the costs involved can be counted.
pub open spec fn activation_ready(g: Game, card: FrontendCardTarget) -> bool {
    let players = g.players@;
    &&& g.current_turn is Some
    &&& (exists|q: int| first_named(players, card.player_id@, q)) ==> {
        let q = target_seat(players, card);
        let c = target_card(players, card);
        &&& target_ok(players, card)
        &&& owner_counts_costs(c, Some(&players[q]))
        &&& mana_arith_ok(players[q].mana_pool, Seq::empty())
        &&& match owner_of(players, c) { Some(p) => owner_counts_costs(c, Some(&p)), None => true }
    }
}

/// How `g1` and `r` follow from `g0` when a player uses the ability with
/// the given id of the card at position `card`, aimed at `target`.
pub open spec fn card_activated(g0: Game, g1: Game, card: FrontendCardTarget, target: Option<FrontendTarget>, trigger_id: Seq<char>, r: Result<Activation, String>) -> bool {
    &&& !(exists|q: int| first_named(g0.players@, card.player_id@, q)) ==>
        g1 == g0 && (r matches Err(e) && e@ == "Unable to find target"@)
    &&& (exists|q: int| first_named(g0.players@, card.player_id@, q)) ==> {
        let q = target_seat(g0.players@, card);
        match g0.current_priority_player {
            Some((cur, _, _)) => cur != q ==> g1 == g0 && (r matches Err(e) && e@ == "Not your turn"@),
            None => true,
        }
    }
    &&& ({
        let players = g0.players@;
        let q = target_seat(players, card);
        let c = target_card(players, card);
        let spell = card.pile != FrontendPileName::Play && !is_land(c.card_type);
        let turn_ok = match g0.current_priority_player { Some((cur, _, _)) => cur == q, None => true };
        (exists|x: int| first_named(players, card.player_id@, x)) && turn_ok ==> {
            &&& exists|pick: (Vec<GameAction>, bool, Vec<ManaType>)| #[trigger] picked_ability(g0, card, target, trigger_id, pick)
                && g1.players@[q].mana_pool == pool_after_paying(players[q].mana_pool, pick.2@)
                && match r {
                    Err(e) => crate::player::payment_error(players[q].mana_pool, pick.2@) == Some(e@),
                    Ok(Activation::Resolve(v)) => crate::player::payment_error(players[q].mana_pool, pick.2@) is None
                        && !spell && v@ == pick.0@
                        && (pick.1 ==> pile_of(g1.players@[q], card.pile)[card.card_index as int] == (Card { tapped: true, ..c })),
                    Ok(Activation::Stacked(start)) => crate::player::payment_error(players[q].mana_pool, pick.2@) is None
                        && spell
                        && start == g0.current_priority_player.is_none()
                        && g1.event_stack@ == g0.event_stack@ + pick.0@
                        && g1.players@[q].spells@.last().id@ == c.id@,
                }
            &&& g1.current_priority_player == match g0.current_priority_player {
                Some((cur, tl, _)) => Some((cur, tl, ActionType::PlayedCard)),
                None => None,
            }
        }
    })
}

impl Game {
    /// Finds the card's owner at the table and whether it is their turn.
    pub(crate) fn owner_info(&self, c: &Card) -> (r: (Option<usize>, Option<bool>))
        ensures
            match r.0 {
                Some(o) => owner_of(self.players@, *c) == Some(self.players@[o as int]) && o < self.players@.len(),
                None => owner_of(self.players@, *c) is None,
            },
            r.1 == owner_turn(*self, *c),
    {
        match &c.owner {
            Some(n) => match find_player(&self.players, n) {
                Some(o) => {
                    proof {
                        let o0 = choose|o: int| first_named(self.players@, n@, o);
                        crate::effects::lemma_first_named_unique(self.players@, n@, o as int, o0);
                    }
                    (Some(o), Some(self.is_turn_of(n)))
                },
                None => (None, None),
            },
            None => (None, None),
        }
    }

    /// The ability of the card at the position that the player picks, with
    /// what it costs; it can be paid for, and a tapping ability that can be
    /// used finds its card untapped and ready.
    fn pick_ability(&self, q: usize, card: &FrontendCardTarget, target: &Option<FrontendTarget>, trigger_id: &String)
        -> (pick: (Vec<GameAction>, bool, Vec<ManaType>))
        requires
            activation_ready(*self, *card),
            first_named(self.players@, card.player_id@, q as int),
        ensures
            picked_ability(*self, *card, *target, trigger_id@, pick),
            mana_arith_ok(self.players@[q as int].mana_pool, pick.2@),
            pick.1 ==> !target_card(self.players@, *card).tapped
                && target_card(self.players@, *card).current_phase == crate::card::CardPhase::Ready,
    {
        proof {
            let q0 = target_seat(self.players@, *card);
            crate::effects::lemma_first_named_unique(self.players@, card.player_id@, q as int, q0);
        }
        let in_play = card.pile == FrontendPileName::Play;
        let idx = card.card_index as usize;
        let c: &Card = match card.pile {
            FrontendPileName::Hand => &self.players[q].cards_in_hand[idx],
            FrontendPileName::Spell => &self.players[q].spells[idx],
            FrontendPileName::Play => &self.players[q].cards_in_play[idx],
            FrontendPileName::Deck => &self.players[q].deck.draw_pile[idx],
            FrontendPileName::Exiled => &self.players[q].deck.exiled[idx],
            FrontendPileName::Graveyard => &self.players[q].deck.graveyard[idx],
        };
        proof {
            assert(*c == target_card(self.players@, *card));
        }
        let phase = self.current_phase();
        let (owner_seat, is_owner_turn) = self.owner_info(c);
        let pick = match owner_seat {
            Some(o) => collect_manual_actions(c, in_play, target, trigger_id, phase, Some(&self.players[o]), is_owner_turn),
            None => collect_manual_actions(c, in_play, target, trigger_id, phase, None, is_owner_turn),
        };
        proof {
            let abs = choose|abs: Seq<AbilityDetails>| #[trigger] abilities_are(*c, phase, in_play, owner_of(self.players@, *c), owner_turn(*self, *c), abs)
                && manual_pick(abs, trigger_id@, c.id@, *target, pick);
            lemma_pick_cost(*c, phase, in_play, owner_of(self.players@, *c), owner_turn(*self, *c), abs, trigger_id@, *target, pick, self.players@[q as int]);
            reveal(picked_ability);
        }
        pick
    }

    /// Pays the cost from the pool of the player at the seat.
    fn pay_for(&mut self, q: usize, mana: &Vec<ManaType>) -> (r: Result<(), String>)
        requires
            q < old(self).players@.len(),
            mana_arith_ok(old(self).players@[q as int].mana_pool, mana@),
        ensures
            payment_result(r, old(self).players@[q as int].mana_pool, mana@),
            final(self).players@.len() == old(self).players@.len(),
            final(self).players@[q as int].mana_pool == pool_after_paying(old(self).players@[q as int].mana_pool, mana@),
            final(self).players@[q as int].spells == old(self).players@[q as int].spells,
            forall|j: int| 0 <= j < old(self).players@.len() && j != q ==> #[trigger] final(self).players@[j] == old(self).players@[j],
            pile_of(final(self).players@[q as int], FrontendPileName::Hand) == pile_of(old(self).players@[q as int], FrontendPileName::Hand),
            forall|pile: FrontendPileName| #[trigger] pile_of(final(self).players@[q as int], pile) == pile_of(old(self).players@[q as int], pile),
            *final(self) == (Game { players: final(self).players, ..*old(self) }),
    {
        let mut p = self.players.remove(q);
        let paid = p.pay_mana(mana);
        self.players.insert(q, p);
        proof {
            assert forall|j: int| 0 <= j < old(self).players@.len() && j != q implies #[trigger] self.players@[j] == old(self).players@[j] by {
                if j < q {
                    assert(self.players@[j] == old(self).players@[j]);
                } else {
                    assert(self.players@[j] == old(self).players@[j]);
                }
            }
        }
        paid
    }

    /// Taps the untapped, ready card at the given place.
    fn tap_at(&mut self, q: usize, pile: FrontendPileName, idx: usize)
        requires
            q < old(self).players@.len(),
            idx < pile_of(old(self).players@[q as int], pile).len(),
            !pile_of(old(self).players@[q as int], pile)[idx as int].tapped,
            pile_of(old(self).players@[q as int], pile)[idx as int].current_phase == crate::card::CardPhase::Ready,
        ensures
            crate::execute::card_set(*old(self), *final(self), q as int, pile, idx as int,
                Card { tapped: true, ..pile_of(old(self).players@[q as int], pile)[idx as int] }),
    {
        let ghost g0 = *self;
        let mut cc = self.take_card(q, pile, idx);
        let ghost g1 = *self;
        let tapped = cc.tap();
        self.put_card(q, pile, idx, cc);
        proof {
            Self::lemma_take_put(g0, g1, *self, q as int, pile, idx as int, cc);
        }
    }

    /// Moves the card with the given id from where it is first found onto
    /// the stack of the player at the seat, and its actions onto the game's
    /// stack.
    fn stack_spell(&mut self, q: usize, cid: &String, fallback: Card, actions: Vec<GameAction>)
        requires
            q < old(self).players@.len(),
            fallback.id@ == cid@,
        ensures
            final(self).event_stack@ == old(self).event_stack@ + actions@,
            final(self).players@.len() == old(self).players@.len(),
            final(self).players@[q as int].spells@.last().id@ == cid@,
            final(self).players@[q as int].mana_pool == old(self).players@[q as int].mana_pool,
            final(self).current_priority_player == old(self).current_priority_player,
    {
        let mut moved = fallback;
        match self.find_card_seat(cid) {
            Some((pi, pile, k)) => {
                moved = self.take_card(pi, pile, k);
            },
            None => {},
        }
        let mut p = self.players.remove(q);
        p.spells.push(moved);
        self.players.insert(q, p);
        let mut actions = actions;
        self.event_stack.append(&mut actions);
    }

    /// A player uses the ability with the given id of the card at the given
    /// position, aimed at the target: only the player holding priority may,
    /// and doing so marks that a card was played. The ability's cost is paid
    /// and the card tapped when the ability asks it. A spell played from the
    /// hand moves to its player's stack, its action waits there, and priority
    /// is to be handed round when nobody holds it; anything else gives its
    /// action back to be carried out at once.
    #[verifier::rlimit(40)]
    pub fn activate_card_action(&mut self, card: &FrontendCardTarget, target: &Option<FrontendTarget>, trigger_id: &String) -> (r: Result<Activation, String>)
        requires
            activation_ready(*old(self), *card),
        ensures
            card_activated(*old(self), *final(self), *card, *target, trigger_id@, r),
    {
        let q = match find_player(&self.players, &card.player_id) {
            Some(q) => q,
            None => return Err("Unable to find target".to_string()),
        };
        proof {
            let q0 = choose|x: int| first_named(old(self).players@, card.player_id@, x);
            crate::effects::lemma_first_named_unique(old(self).players@, card.player_id@, q as int, q0);
        }
        let pick = self.pick_ability(q, card, target, trigger_id);
        let ghost pk = pick;
        let ghost cx = target_card(old(self).players@, *card);
        let idx = card.card_index as usize;
        let cid = match card.pile {
            FrontendPileName::Hand => self.players[q].cards_in_hand[idx].id.clone(),
            FrontendPileName::Spell => self.players[q].spells[idx].id.clone(),
            FrontendPileName::Play => self.players[q].cards_in_play[idx].id.clone(),
            FrontendPileName::Deck => self.players[q].deck.draw_pile[idx].id.clone(),
            FrontendPileName::Exiled => self.players[q].deck.exiled[idx].id.clone(),
            FrontendPileName::Graveyard => self.players[q].deck.graveyard[idx].id.clone(),
        };
        let fallback = self.card_from_frontend_card_target(card);
        let is_spell = card.pile != FrontendPileName::Play && fallback.card_type.is_spell();
        match self.current_priority_player {
            Some((cur, tl, _)) => {
                if cur != q {
                    return Err("Not your turn".to_string());
                }
                self.current_priority_player = Some((cur, tl, ActionType::PlayedCard));
            },
            None => {},
        }
        let (actions, tap, mana) = pick;
        let paid = self.pay_for(q, &mana);
        match paid {
            Ok(()) => {},
            Err(e) => return Err(e),
        }
        if tap {
            self.tap_at(q, card.pile, idx);
        }
        if is_spell {
            let start = self.current_priority_player.is_none();
            self.stack_spell(q, &cid, fallback, actions);
            Ok(Activation::Stacked(start))
        } else {
            Ok(Activation::Resolve(actions))
        }
    }
}


} // verus!

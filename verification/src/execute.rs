//! Carrying out the pending actions of players and cards. Each action
//! changes the table and gives back the actions it sets off, to be carried
//! out right after it, in order.
use vstd::prelude::*;
use crate::action::{ActionTriggerType, CardAction, PhaseTarget, CardActionTrigger, CardActionWrapper, DestroySelf, GameAction, PlayerAction, PlayerActionWrapper, same_game_actions, same_game_action};
use crate::card::{Card, CardType, is_land, same_card, same_opt_str};
use crate::combat::{Combat, combat_frame, combat_outcome, combat_ready, hits_recorded};
use crate::deck::{DeckPile, deck_gained};
use crate::effects::EffectTarget;
use crate::fight::{fighters, table_answers};
use crate::game::{FrontendCardTarget, FrontendPileName, FrontendTarget, Game, TargetPolicy, card_pairs, earlier_piles_lack, holds_card, is_current_player, pile_holds, pile_of, pile_replaced, picked, played_flags, played_unhandled, table_pairs, trigger_pairs};
use crate::mana::{ManaPool, ManaType, count_of};
use crate::player::{Player, drew_card, drew_cards, returned_to_hand};
use crate::removal::{no_opponent_answers, placed_triggers, removal_at, removal_done, removal_trace};
use crate::stat::{Stat, StatType, Stats, stat_added};
use crate::table::{find_player, first_named};

verus! {

/// The player with every card in play untapped and no land played.
pub open spec fn untapped_all(p0: Player, p1: Player) -> bool {
    &&& p1 == (Player { cards_in_play: p1.cards_in_play, mana_pool: p1.mana_pool, ..p0 })
    &&& p1.mana_pool == (ManaPool { played_card: false, ..p0.mana_pool })
    &&& p1.cards_in_play@.len() == p0.cards_in_play@.len()
    &&& forall|ci: int| 0 <= ci < p0.cards_in_play@.len() ==> #[trigger] p1.cards_in_play@[ci] == (Card { tapped: false, ..p0.cards_in_play@[ci] })
}

/// The player with the mana pool emptied, whether a land was played kept.
pub open spec fn pool_reset(p0: Player, p1: Player) -> bool {
    p1 == (Player { mana_pool: ManaPool { played_card: p0.mana_pool.played_card, ..ManaPool::empty() }, ..p0 })
}

/// The actions destroy the cards with the given ids, one each, in order:
/// each card's own destruction, aimed at nothing.
pub open spec fn destroy_requests(v: Seq<GameAction>, ids: Seq<Seq<char>>) -> bool {
    &&& v.len() == ids.len()
    &&& forall|k: int| 0 <= k < v.len() ==> {
        &&& (#[trigger] v[k]) matches GameAction::Card(w)
        &&& v[k]->Card_0.card@ == ids[k]
        &&& v[k]->Card_0.action == CardAction::DestroySelf(DestroySelf {})
        &&& v[k]->Card_0.target is None
        &&& v[k]->Card_0.ability_id is None
    }
}

/// Untaps every card of the list.
fn untap_cards(cards: &mut Vec<Card>)
    ensures
        final(cards)@.len() == old(cards)@.len(),
        forall|ci: int| 0 <= ci < old(cards)@.len() ==> #[trigger] final(cards)@[ci] == (Card { tapped: false, ..old(cards)@[ci] }),
{
    let mut j: usize = 0;
    while j < cards.len()
        invariant
            j <= cards@.len(),
            cards@.len() == old(cards)@.len(),
            forall|k: int| j <= k < cards@.len() ==> #[trigger] cards@[k] == old(cards)@[k],
            forall|k: int| 0 <= k < j ==> #[trigger] cards@[k] == (Card { tapped: false, ..old(cards)@[k] }),
        decreases cards@.len() - j,
    {
        let mut c = cards.remove(j);
        c.untap();
        cards.insert(j, c);
        j = j + 1;
    }
}

/// What a player's action can be carried out on: a seat at the table and,
/// for combat, fighters that are all in play with countable stats, whose
/// fight stays within the bounds of an `i16`.
pub open spec fn player_action_ready(g: Game, w: PlayerActionWrapper) -> bool {
    &&& w.player < g.players@.len()
    &&& w.action is Combat ==> combat_ready(g.combat, g.players@) && combat_outcome(g.combat, g.players@).4
}

/// How carrying out a player's action changed the game from `g0` to `g1`,
/// and what it gave back.
pub open spec fn player_action_done(g0: Game, g1: Game, w: PlayerActionWrapper, r: Result<Vec<GameAction>, String>) -> bool {
    &&& r is Ok
    &&& !(w.action is Combat) ==> {
        &&& g1 == (Game { players: g1.players, ..g0 })
        &&& g1.players@ == g0.players@.update(w.player as int, g1.players@[w.player as int])
        &&& r matches Ok(v) && v@.len() == 0
    }
    &&& match w.action {
        PlayerAction::ResetManaPool(_) => pool_reset(g0.players@[w.player as int], g1.players@[w.player as int]),
        PlayerAction::UntapAll(_) => untapped_all(g0.players@[w.player as int], g1.players@[w.player as int]),
        PlayerAction::DrawCard(_) => drew_card(g0.players@[w.player as int], g1.players@[w.player as int]),
        PlayerAction::Combat(_) => {
            let outcome = combat_outcome(g0.combat, g0.players@);
            let answers = table_answers(g1.players@, fighters(g0.combat));
            &&& combat_frame(g0.players@, g1.players@, outcome)
            &&& hits_recorded(g0.players@, g1.players@, outcome.3)
            &&& g1.combat.attackers@.len() == 0
            &&& g1.combat.blockers@.len() == 0
            &&& g1 == (Game { players: g1.players, combat: g1.combat, ..g0 })
            &&& r matches Ok(v) && v@.len() == answers.len() + outcome.2.len()
                && same_game_actions(v@.subrange(0, answers.len() as int), answers)
                && destroy_requests(v@.subrange(answers.len() as int, v@.len() as int), outcome.2)
        },
    }
}

impl Game {
    /// Carries out a player's action: emptying the mana pool, untapping
    /// everything, drawing a card, or resolving combat. Combat sets off the
    /// answers of the cards that fought, and then the destruction of the
    /// cards it destroyed.
    pub fn execute_player_action(&mut self, w: &PlayerActionWrapper) -> (r: Result<Vec<GameAction>, String>)
        requires
            player_action_ready(*old(self), *w),
        ensures
            player_action_done(*old(self), *final(self), *w, r),
    {
        match w.action {
            PlayerAction::ResetManaPool(_) => {
                let mut p = self.players.remove(w.player);
                p.mana_pool.empty_pool();
                self.players.insert(w.player, p);
                proof {
                    assert(self.players@ =~= old(self).players@.update(w.player as int, self.players@[w.player as int]));
                }
                Ok(Vec::new())
            },
            PlayerAction::UntapAll(_) => {
                let mut p = self.players.remove(w.player);
                untap_cards(&mut p.cards_in_play);
                p.mana_pool.played_card = false;
                self.players.insert(w.player, p);
                proof {
                    assert(self.players@ =~= old(self).players@.update(w.player as int, self.players@[w.player as int]));
                }
                Ok(Vec::new())
            },
            PlayerAction::DrawCard(_) => {
                let mut p = self.players.remove(w.player);
                p.draw_card();
                self.players.insert(w.player, p);
                proof {
                    assert(self.players@ =~= old(self).players@.update(w.player as int, self.players@[w.player as int]));
                }
                Ok(Vec::new())
            },
            PlayerAction::Combat(_) => {
                let (mut actions, destroyed) = self.resolve_combat();
                let ghost answers = actions@;
                let mut k: usize = 0;
                while k < destroyed.len()
                    invariant
                        k <= destroyed@.len(),
                        actions@.len() == answers.len() + k,
                        actions@.subrange(0, answers.len() as int) == answers,
                        destroy_requests(actions@.subrange(answers.len() as int, actions@.len() as int),
                            destroyed@.subrange(0, k as int).map_values(|s: String| s@)),
                    decreases destroyed@.len() - k,
                {
                    let ghost before = actions@;
                    actions.push(GameAction::Card(CardActionWrapper {
                        card: destroyed[k].clone(),
                        action: CardAction::DestroySelf(DestroySelf {}),
                        target: None,
                        ability_id: None,
                    }));
                    proof {
                        assert(actions@.subrange(0, answers.len() as int) =~= before.subrange(0, answers.len() as int));
                        let tail = actions@.subrange(answers.len() as int, actions@.len() as int);
                        let tail0 = before.subrange(answers.len() as int, before.len() as int);
                        assert forall|j: int| 0 <= j < tail.len() - 1 implies #[trigger] tail[j] == tail0[j] by {}
                        assert(destroyed@.subrange(0, k as int + 1).map_values(|s: String| s@)
                            =~= destroyed@.subrange(0, k as int).map_values(|s: String| s@).push(destroyed@[k as int]@));
                    }
                    k = k + 1;
                }
                proof {
                    assert(destroyed@.subrange(0, destroyed@.len() as int) =~= destroyed@);
                    let ids = destroyed@.map_values(|s: String| s@);
                    let outcome = combat_outcome(old(self).combat, old(self).players@);
                    assert(ids =~= outcome.2);
                }
                Ok(actions)
            },
        }
    }
}

/// The card with the given id is first found at seat `pi`, in `pile`, at
/// place `k`, searching seat by seat the hand, the stack, the battlefield
/// and the draw pile.
pub open spec fn found_at(players: Seq<Player>, id: Seq<char>, pi: int, pile: FrontendPileName, k: int) -> bool {
    &&& 0 <= pi < players.len()
    &&& 0 <= k < pile_of(players[pi], pile).len()
    &&& pile_of(players[pi], pile)[k].id@ == id
    &&& forall|pj: int| 0 <= pj < pi ==> !holds_card(#[trigger] players[pj], id)
    &&& earlier_piles_lack(players[pi], id, pile)
    &&& forall|j: int| 0 <= j < k ==> (#[trigger] pile_of(players[pi], pile)[j]).id@ != id
}

pub proof fn lemma_found_at_unique(players: Seq<Player>, id: Seq<char>, pi: int, pile: FrontendPileName, k: int, qi: int, qpile: FrontendPileName, qk: int)
    requires
        found_at(players, id, pi, pile, k),
        found_at(players, id, qi, qpile, qk),
    ensures
        pi == qi && pile == qpile && k == qk,
{
    assert(pile_holds(pile_of(players[pi], pile), id));
    assert(pile_holds(pile_of(players[qi], qpile), id));
    assert(holds_card(players[pi], id));
    assert(holds_card(players[qi], id));
    if pi < qi {
        assert(!holds_card(players[pi], id));
    } else if qi < pi {
        assert(!holds_card(players[qi], id));
    }
    assert(pi == qi);
    if k < qk && pile == qpile {
        assert(pile_of(players[pi], pile)[k].id@ != id);
    } else if qk < k && pile == qpile {
        assert(pile_of(players[pi], pile)[qk].id@ != id);
    }
}

/// Where the card with the given id is first found.
pub open spec fn acting_pos(players: Seq<Player>, id: Seq<char>) -> (int, FrontendPileName, int) {
    choose|pi: int, pile: FrontendPileName, k: int| found_at(players, id, pi, pile, k)
}

/// The card with the given id, where it is first found.
pub open spec fn acting_card(players: Seq<Player>, id: Seq<char>) -> Card {
    let (pi, pile, k) = acting_pos(players, id);
    pile_of(players[pi], pile)[k]
}

/// The seat of the acting card's owner.
pub open spec fn owner_seat(players: Seq<Player>, id: Seq<char>) -> int {
    choose|o: int| first_named(players, acting_card(players, id).owner.unwrap()@, o)
}

/// The card at the place a client position names, on the seat of the first
/// player with its name.
pub open spec fn target_seat(players: Seq<Player>, t: FrontendCardTarget) -> int {
    choose|q: int| first_named(players, t.player_id@, q)
}

/// The position names a card at the table.
pub open spec fn target_ok(players: Seq<Player>, t: FrontendCardTarget) -> bool {
    &&& exists|q: int| first_named(players, t.player_id@, q)
    &&& 0 <= t.card_index < pile_of(players[target_seat(players, t)], t.pile).len()
}

/// The card a client position names.
pub open spec fn target_card(players: Seq<Player>, t: FrontendCardTarget) -> Card {
    pile_of(players[target_seat(players, t)], t.pile)[t.card_index as int]
}

/// `g1` is `g0` with the card at seat `pi`, in `pile`, at place `k` replaced by `c`.
pub open spec fn card_set(g0: Game, g1: Game, pi: int, pile: FrontendPileName, k: int, c: Card) -> bool {
    &&& g1 == (Game { players: g1.players, ..g0 })
    &&& g1.players@.len() == g0.players@.len()
    &&& forall|j: int| 0 <= j < g0.players@.len() && j != pi ==> #[trigger] g1.players@[j] == g0.players@[j]
    &&& pile_replaced(g0.players@[pi], g1.players@[pi], pile, pile_of(g0.players@[pi], pile).update(k, c))
}

/// `g1` is `g0` with the player at seat `o` replaced by some player.
pub open spec fn player_set(g0: Game, g1: Game, o: int) -> bool {
    &&& g1 == (Game { players: g1.players, ..g0 })
    &&& g1.players@ == g0.players@.update(o, g1.players@[o])
}

/// The times a draw action draws.
pub open spec fn draw_count(n: i16) -> nat {
    if n > 0 { n as nat } else { 0 }
}

/// The actions of a card's triggers that answer a change of the stat, in
/// order, aimed at nothing.
pub open spec fn card_stat_answers(c: Card, ts: Seq<CardActionTrigger>, st: StatType) -> Seq<GameAction>
    decreases ts.len(),
{
    if ts.len() == 0 {
        Seq::empty()
    } else {
        let rest = card_stat_answers(c, ts.drop_last(), st);
        if ts.last().trigger_type == ActionTriggerType::PlayerStatChanged(st) {
            rest.push(GameAction::Card(CardActionWrapper { card: c.id, action: ts.last().action, target: None, ability_id: Some(ts.last().id) }))
        } else {
            rest
        }
    }
}

/// What the cards of a battlefield other than the source answer a change of
/// their player's stat with, card by card.
pub open spec fn stat_change_answers(cards: Seq<Card>, source: Seq<char>, st: StatType) -> Seq<GameAction>
    decreases cards.len(),
{
    if cards.len() == 0 {
        Seq::empty()
    } else {
        stat_change_answers(cards.drop_last(), source, st)
            + if cards.last().id@ == source { Seq::empty() } else { card_stat_answers(cards.last(), cards.last().triggers@, st) }
    }
}

/// `g1` is `g0` with the player at seat `o` given a stat of the type and
/// amount under a fresh id, and `v` what the player's cards other than the
/// source answer it with.
pub open spec fn stat_given(g0: Game, g1: Game, o: int, st: StatType, amount: int, source: Seq<char>, v: Seq<GameAction>) -> bool {
    &&& player_set(g0, g1, o)
    &&& g1.players@[o] == (Player { stat_manager: g1.players@[o].stat_manager, ..g0.players@[o] })
    &&& g1.players@[o].stat_manager.listeners == g0.players@[o].stat_manager.listeners
    &&& exists|id: Seq<char>| id.len() == 26 && #[trigger] stat_added(g0.players@[o].stat_manager, g1.players@[o].stat_manager, id, Stat { stat_type: st, intensity: amount as i16 })
    &&& same_game_actions(v, stat_change_answers(g0.players@[o].cards_in_play@, source, st))
}

/// The stats of a card or player can be added up within an `i16`.
pub open spec fn countable(sm: crate::stat::StatManager, t: StatType) -> bool {
    sm.stats@.len() < 0x1_0000_0000 && i16::MIN <= sm.total(t) <= i16::MAX
}

/// The damage a card deals to a player: its power less the player's toughness.
pub open spec fn card_damage(c: Card, p: Player) -> int {
    c.stats.total(StatType::Power) - p.stat_manager.total(StatType::Toughness)
}

/// A trigger kind that the playing of a card does not handle: a tribe or an
/// other-card trigger for opponents or for anyone.
pub open spec fn kind_unhandled(tt: ActionTriggerType) -> bool {
    ||| tt matches ActionTriggerType::CreatureTypeCardPlayed(PhaseTarget::Opponent, _)
    ||| tt matches ActionTriggerType::CreatureTypeCardPlayed(PhaseTarget::Any, _)
    ||| tt == ActionTriggerType::OtherCardPlayed(PhaseTarget::Opponent)
    ||| tt == ActionTriggerType::OtherCardPlayed(PhaseTarget::Any)
}

/// No card of the list carries a trigger kind that playing a card does not handle.
pub open spec fn cards_handled(cards: Seq<Card>) -> bool {
    forall|j: int, m: int| 0 <= j < cards.len() && 0 <= m < cards[j].triggers@.len()
        ==> !kind_unhandled(#[trigger] cards[j].triggers@[m].trigger_type)
}

/// No card in play carries a trigger kind that playing a card does not handle.
pub open spec fn table_handled(players: Seq<Player>) -> bool {
    forall|i: int| 0 <= i < players.len() ==> cards_handled(#[trigger] players[i].cards_in_play@)
}

pub proof fn lemma_cards_handled(cards: Seq<Card>, played: Seq<char>)
    requires
        cards_handled(cards),
    ensures
        forall|k: int| 0 <= k < card_pairs(cards).len() ==> !played_unhandled(played, #[trigger] card_pairs(cards)[k].0, card_pairs(cards)[k].1),
    decreases cards.len(),
{
    if cards.len() > 0 {
        let rest = cards.drop_last();
        assert(cards_handled(rest)) by {
            assert forall|j: int, m: int| 0 <= j < rest.len() && 0 <= m < rest[j].triggers@.len()
                implies !kind_unhandled(#[trigger] rest[j].triggers@[m].trigger_type) by {
                assert(rest[j] == cards[j]);
            }
        }
        lemma_cards_handled(rest, played);
        let c = cards.last();
        let tp = trigger_pairs(c, c.triggers@);
        let all = card_pairs(cards);
        assert(all == card_pairs(rest) + tp);
        assert forall|k: int| 0 <= k < all.len() implies !played_unhandled(played, #[trigger] all[k].0, all[k].1) by {
            if k >= card_pairs(rest).len() {
                let m = k - card_pairs(rest).len();
                assert(all[k] == tp[m]);
                assert(c == cards[cards.len() - 1]);
                assert(!kind_unhandled(cards[cards.len() - 1].triggers@[m].trigger_type));
            } else {
                assert(all[k] == card_pairs(rest)[k]);
            }
        }
    }
}

pub proof fn lemma_table_handled(players: Seq<Player>, played: Seq<char>)
    requires
        table_handled(players),
    ensures
        forall|k: int| 0 <= k < table_pairs(players).len() ==> !played_unhandled(played, #[trigger] table_pairs(players)[k].0, table_pairs(players)[k].1),
    decreases players.len(),
{
    if players.len() > 0 {
        let rest = players.drop_last();
        assert(table_handled(rest)) by {
            assert forall|i: int| 0 <= i < rest.len() implies cards_handled(#[trigger] rest[i].cards_in_play@) by {
                assert(rest[i] == players[i]);
            }
        }
        lemma_table_handled(rest, played);
        let last = players.last();
        assert(cards_handled(players[players.len() - 1].cards_in_play@));
        lemma_cards_handled(last.cards_in_play@, played);
        let all = table_pairs(players);
        assert(all == table_pairs(rest) + card_pairs(last.cards_in_play@));
        assert forall|k: int| 0 <= k < all.len() implies !played_unhandled(played, #[trigger] all[k].0, all[k].1) by {
            if k >= table_pairs(rest).len() {
                assert(all[k] == card_pairs(last.cards_in_play@)[k - table_pairs(rest).len()]);
            } else {
                assert(all[k] == table_pairs(rest)[k]);
            }
        }
    }
}

/// `post` is `pre` with the card at seat `pi`, in `pile`, at place `k` taken out.
pub open spec fn card_taken(pre: Seq<Player>, post: Seq<Player>, pi: int, pile: FrontendPileName, k: int) -> bool {
    &&& post.len() == pre.len()
    &&& forall|j: int| 0 <= j < pre.len() && j != pi ==> #[trigger] post[j] == pre[j]
    &&& pile_replaced(pre[pi], post[pi], pile, pile_of(pre[pi], pile).remove(k))
}

/// How playing the acting card changed the game: the card taken from where
/// it lies; a countered card's pristine copy put in its owner's graveyard and
/// the counter noted; any other card put on its owner's battlefield, a land
/// marking the owner's land play done, with what the table answers its
/// playing with given back.
pub open spec fn card_played(g0: Game, g1: Game, w: CardActionWrapper, r: Result<Vec<GameAction>, String>) -> bool {
    let players = g0.players@;
    let (pi, pile, k) = acting_pos(players, w.card@);
    let c = acting_card(players, w.card@);
    let o = owner_seat(players, w.card@);
    exists|mid: Seq<Player>| #![trigger card_taken(players, mid, pi, pile, k)] {
        &&& card_taken(players, mid, pi, pile, k)
        &&& if c.is_countered {
            &&& r matches Ok(v) && v@.len() == 0
            &&& g1 == (Game { players: g1.players, turn_messages: g1.turn_messages, ..g0 })
            &&& g1.players@ == mid.update(o, g1.players@[o])
            &&& g1.players@[o] == (Player { deck: g1.players@[o].deck, ..mid[o] })
            &&& deck_gained(mid[o].deck, g1.players@[o].deck, c.id@, DeckPile::Graveyard)
            &&& g1.turn_messages@.len() == g0.turn_messages@.len() + 1
            &&& g1.turn_messages@.drop_last() == g0.turn_messages@
            &&& g1.turn_messages@.last()@ == "Spell "@ + c.name@ + " was countered and moved to graveyard."@
        } else {
            &&& g1 == (Game { players: g1.players, ..g0 })
            &&& g1.players@ == mid.update(o, g1.players@[o])
            &&& g1.players@[o] == (Player { cards_in_play: g1.players@[o].cards_in_play, mana_pool: g1.players@[o].mana_pool, ..mid[o] })
            &&& g1.players@[o].cards_in_play@ == mid[o].cards_in_play@.push(c)
            &&& g1.players@[o].mana_pool == (if is_land(c.card_type) { ManaPool { played_card: true, ..mid[o].mana_pool } } else { mid[o].mana_pool })
            &&& r matches Ok(v) && same_game_actions(v@, picked(table_pairs(g1.players@),
                played_flags(table_pairs(g1.players@), c.id@, c.owner.unwrap()@, is_current_player(g1, c.owner.unwrap()@)),
                TargetPolicy::Given(w.target)))
        }
    }
}

/// The pool with each mana of the list added, in order.
pub open spec fn pool_with(pool: ManaPool, ms: Seq<ManaType>) -> ManaPool
    decreases ms.len(),
{
    if ms.len() == 0 {
        pool
    } else {
        pool_with(pool, ms.drop_last()).with_added(ms.last())
    }
}

pub proof fn lemma_pool_with_amount(pool: ManaPool, ms: Seq<ManaType>, m: ManaType)
    requires
        forall|t: ManaType| #[trigger] pool.amount(t) + count_of(ms, t) <= 255,
    ensures
        pool_with(pool, ms).amount(m) == pool.amount(m) + count_of(ms, m),
        pool_with(pool, ms).played_card == pool.played_card,
    decreases ms.len(),
{
    if ms.len() > 0 {
        assert forall|t: ManaType| #[trigger] pool.amount(t) + count_of(ms.drop_last(), t) <= 255 by {
            assert(count_of(ms, t) == count_of(ms.drop_last(), t) + (if ms.last() == t { 1nat } else { 0nat }));
        }
        lemma_pool_with_amount(pool, ms.drop_last(), m);
        lemma_pool_with_amount(pool, ms.drop_last(), ms.last());
    }
}

/// The acting card can be carried out: it is found at the table, it has an
/// owner at the table, and the action asks for nothing it cannot do.
pub open spec fn card_action_ready(g: Game, w: CardActionWrapper) -> bool {
    let players = g.players@;
    let c = acting_card(players, w.card@);
    &&& exists|pi: int, pile: FrontendPileName, k: int| found_at(players, w.card@, pi, pile, k)
    &&& c.owner is Some
    &&& exists|o: int| first_named(players, c.owner.unwrap()@, o)
    &&& match w.action {
        CardAction::Blank(_) | CardAction::TapCard(_) | CardAction::DrawCards(_) => true,
        CardAction::AddStat(_) => c.stats.wf(),
        CardAction::DeclareAttacker(_) => match w.target {
            Some(FrontendTarget::Card(t)) => target_ok(players, t),
            _ => true,
        },
        CardAction::DeclareBlocker(_) => w.target matches Some(FrontendTarget::Card(t)) && target_ok(players, t),
        CardAction::CounterSpell(_) => match w.target {
            Some(FrontendTarget::Card(t)) => target_ok(players, t),
            Some(FrontendTarget::Player(_)) => false,
            None => true,
        },
        CardAction::DestroySelf(_) => no_opponent_answers(players, DeckPile::Graveyard),
        CardAction::DestroyTarget(_) => match w.target {
            Some(FrontendTarget::Card(t)) => target_ok(players, t) && no_opponent_answers(players, DeckPile::Graveyard),
            _ => true,
        },
        CardAction::LifeLink(_) => countable(c.stats, StatType::Lifelink) && players[owner_seat(players, w.card@)].stat_manager.wf(),
        CardAction::CardDamage(_) => match w.target {
            Some(FrontendTarget::Player(n)) => (exists|q: int| first_named(players, n@, q)) ==> {
                let q = choose|q: int| first_named(players, n@, q);
                &&& countable(c.stats, StatType::Power)
                &&& countable(players[q].stat_manager, StatType::Toughness)
                &&& players[q].stat_manager.wf()
                &&& i16::MIN < card_damage(c, players[q]) <= i16::MAX
            },
            Some(FrontendTarget::Card(_)) => false,
            None => true,
        },
        CardAction::ReturnToHand(_) => match w.target {
            Some(FrontendTarget::Card(t)) => target_ok(players, t),
            _ => true,
        },
        CardAction::Script(name) => if name@ == "ossification_enters"@ {
            &&& w.target matches Some(FrontendTarget::Card(t)) && target_ok(players, t)
            &&& crate::abilities::abilities_wf(g.async_abilities@)
        } else if name@ == "ossification_exile"@ {
            &&& !(w.target matches Some(FrontendTarget::Player(_)))
            &&& w.target matches Some(FrontendTarget::Card(t)) ==> target_ok(players, t)
                && crate::removal::no_opponent_answers(players, DeckPile::Exiled)
        } else {
            (name@ == "gain_two_life"@ || name@ == "gain_one_life_for_creature"@)
                && players[owner_seat(players, w.card@)].stat_manager.wf()
        },
        CardAction::GenerateMana(a) => {
            &&& !(w.target matches Some(FrontendTarget::Card(_)))
            &&& forall|t: ManaType| #[trigger] players[owner_seat(players, w.card@)].mana_pool.amount(t) + count_of(a.mana_to_add@, t) <= 255
        },
        CardAction::PlayCard(_) => {
            let (pi, pile, k) = acting_pos(players, w.card@);
            &&& first_named(players, players[pi].name@, pi)
            &&& table_handled(players)
            &&& forall|m: int| 0 <= m < c.triggers@.len() ==> !kind_unhandled(#[trigger] c.triggers@[m].trigger_type)
        },
        CardAction::ResetCard(_) => crate::effects::stats_wf(players) && g.current_turn is Some,
        CardAction::CastAdditional(cost, _, _, _, _, _) =>
            crate::player::cost_countable(cost@) && crate::abilities::abilities_wf(g.async_abilities@),
    }
}

/// How carrying out the action changed the game from `g0` to `g1`, and what
/// it gave back.
pub open spec fn card_action_done(g0: Game, g1: Game, w: CardActionWrapper, r: Result<Vec<GameAction>, String>) -> bool {
    let players = g0.players@;
    let (pi, pile, k) = acting_pos(players, w.card@);
    let c = acting_card(players, w.card@);
    let o = owner_seat(players, w.card@);
    let none_back = r matches Ok(v) && v@.len() == 0;
    match w.action {
        CardAction::Blank(_) => g1 == g0 && none_back,
        CardAction::TapCard(_) => card_set(g0, g1, pi, pile, k, Card { tapped: true, ..c }) && none_back,
        CardAction::DrawCards(a) => player_set(g0, g1, o) && drew_cards(players[o], g1.players@[o], draw_count(a.count)) && none_back,
        CardAction::AddStat(a) => {
            &&& none_back
            &&& exists|c1: Card| #![trigger card_set(g0, g1, pi, pile, k, c1)] card_set(g0, g1, pi, pile, k, c1)
                && c1 == (Card { stats: c1.stats, ..c }) && stat_added(c.stats, c1.stats, a.id@, a.stat)
                && c1.stats.listeners == c.stats.listeners
        },
        CardAction::DeclareAttacker(_) => {
            &&& none_back
            &&& match w.target {
                None => g1 == g0,
                Some(t) => {
                    &&& g1 == (Game { combat: Combat { attackers: g1.combat.attackers, ..g0.combat }, ..g0 })
                    &&& g1.combat.attackers@.len() == g0.combat.attackers@.len() + 1
                    &&& g1.combat.attackers@.drop_last() == g0.combat.attackers@
                    &&& g1.combat.attackers@.last().0@ == w.card@
                    &&& match (t, g1.combat.attackers@.last().1) {
                        (FrontendTarget::Player(n), EffectTarget::Player(m)) => m@ == n@,
                        (FrontendTarget::Card(ct), EffectTarget::Card(id)) => id@ == target_card(players, ct).id@,
                        _ => false,
                    }
                },
            }
        },
        CardAction::DeclareBlocker(_) => {
            &&& none_back
            &&& g1 == (Game { combat: Combat { blockers: g1.combat.blockers, ..g0.combat }, ..g0 })
            &&& g1.combat.blockers@.len() == g0.combat.blockers@.len() + 1
            &&& g1.combat.blockers@.drop_last() == g0.combat.blockers@
            &&& g1.combat.blockers@.last().0@ == w.card@
            &&& g1.combat.blockers@.last().1@ == target_card(players, w.target->Some_0->Card_0).id@
        },
        CardAction::CounterSpell(_) => match w.target {
            Some(FrontendTarget::Card(t)) => {
                let q = target_seat(players, t);
                let tc = target_card(players, t);
                card_set(g0, g1, q, t.pile, t.card_index as int, Card { is_countered: true, ..tc }) && none_back
            },
            _ => g1 == g0 && (r matches Err(e) && e@ == "No target?"@),
        },
        CardAction::DestroySelf(_) => {
            &&& c.owner is Some
            &&& removal_done(players, g1.players@, removal_at(players, c.id@), DeckPile::Graveyard)
            &&& g1 == (Game { players: g1.players, ..g0 })
            &&& r matches Ok(v) && removal_trace(placed_triggers(players), v@, players, g1.players@,
                removal_at(players, c.id@), c.id@, DeckPile::Graveyard)
        },
        CardAction::DestroyTarget(_) => match w.target {
            None => g1 == g0 && (r matches Err(e) && e@ == "Nothing to destroy"@),
            Some(FrontendTarget::Player(_)) => g1 == g0 && (r matches Err(e) && e@ == "Cannot destroy a player"@),
            Some(FrontendTarget::Card(t)) => {
                let tc = target_card(players, t);
                &&& tc.owner is None ==> (g1 == g0 && none_back)
                &&& tc.owner is Some ==> {
                    &&& removal_done(players, g1.players@, removal_at(players, tc.id@), DeckPile::Graveyard)
                    &&& g1 == (Game { players: g1.players, ..g0 })
                    &&& r matches Ok(v) && removal_trace(placed_triggers(players), v@, players, g1.players@,
                        removal_at(players, tc.id@), tc.id@, DeckPile::Graveyard)
                }
            },
        },
        CardAction::LifeLink(_) => if c.stats.total(StatType::Lifelink) > 0 {
            r matches Ok(v) && stat_given(g0, g1, o, StatType::Health, c.damage_dealt_to_players as int, c.id@, v@)
        } else {
            g1 == g0 && none_back
        },
        CardAction::CardDamage(_) => match w.target {
            Some(FrontendTarget::Player(n)) => if exists|q: int| first_named(players, n@, q) {
                let q = choose|q: int| first_named(players, n@, q);
                &&& none_back
                &&& player_set(g0, g1, q)
                &&& g1.players@[q] == (Player { stat_manager: g1.players@[q].stat_manager, ..players[q] })
                &&& exists|id: Seq<char>| id.len() == 26 && #[trigger] stat_added(players[q].stat_manager, g1.players@[q].stat_manager, id,
                    Stat { stat_type: StatType::Health, intensity: (-card_damage(c, players[q])) as i16 })
            } else {
                g1 == g0 && (r matches Err(e) && e@ == "Unable to find target"@)
            },
            _ => g1 == g0 && none_back,
        },
        CardAction::ReturnToHand(_) => match w.target {
            Some(FrontendTarget::Card(t)) => {
                let tc = target_card(players, t);
                &&& none_back
                &&& g1 == (Game { players: g1.players, turn_messages: g1.turn_messages, ..g0 })
                &&& g1.players@ == players.update(o, g1.players@[o])
                &&& returned_to_hand(players[o], g1.players@[o], tc.id@)
                &&& g1.turn_messages@.len() == g0.turn_messages@.len() + 1
                &&& g1.turn_messages@.drop_last() == g0.turn_messages@
                &&& g1.turn_messages@.last()@ == "Returned "@ + tc.name@ + " to "@ + players[o].name@ + "'s hand."@
            },
            _ => g1 == g0 && none_back,
        },
        CardAction::PlayCard(_) => card_played(g0, g1, w, r),
        CardAction::ResetCard(_) => crate::reset::card_reset(g0, g1, w, r),
        CardAction::CastAdditional(..) => crate::additional::additional_cast(g0, g1, w, r),
        CardAction::GenerateMana(a) => {
            &&& none_back
            &&& player_set(g0, g1, o)
            &&& g1.players@[o] == (Player { mana_pool: pool_with(players[o].mana_pool, a.mana_to_add@), ..players[o] })
        },
        CardAction::Script(name) => if name@ == "ossification_enters"@ {
            crate::ossification::ossification_entered(g0, g1, w, r)
        } else if name@ == "ossification_exile"@ {
            crate::ossification::ossification_exiled(g0, g1, w, r)
        } else if name@ == "gain_two_life"@ {
            r matches Ok(v) && stat_given(g0, g1, o, StatType::Health, 2, c.id@, v@)
        } else if c.card_type == CardType::Creature {
            r matches Ok(v) && stat_given(g0, g1, o, StatType::Health, 1, c.id@, v@)
        } else {
            g1 == g0 && none_back
        },
    }
}

/// The use of the ability with the given id is counted once more: its entry
/// goes up by one, or a new entry starts at one.
pub open spec fn ability_counted(v0: Seq<(String, i32)>, v1: Seq<(String, i32)>, id: Seq<char>) -> bool {
    if exists|j: int| 0 <= j < v0.len() && (#[trigger] v0[j]).0@ == id {
        let j = choose|j: int| 0 <= j < v0.len() && (#[trigger] v0[j]).0@ == id && forall|i: int| 0 <= i < j ==> (#[trigger] v0[i]).0@ != id;
        v1 == v0.update(j, (v0[j].0, (v0[j].1 + 1) as i32))
    } else {
        v1.len() == v0.len() + 1 && v1.drop_last() == v0 && v1.last().0@ == id && v1.last().1 == 1
    }
}

/// Counts one more use of the ability.
fn count_ability(v: &mut Vec<(String, i32)>, id: &String)
    requires
        forall|j: int| 0 <= j < old(v)@.len() ==> (#[trigger] old(v)@[j]).1 < i32::MAX,
    ensures
        ability_counted(old(v)@, final(v)@, id@),
{
    let mut j: usize = 0;
    while j < v.len()
        invariant
            j <= v@.len(),
            v@ == old(v)@,
            forall|i: int| 0 <= i < old(v)@.len() ==> (#[trigger] old(v)@[i]).1 < i32::MAX,
            forall|i: int| 0 <= i < j ==> (#[trigger] v@[i]).0@ != id@,
        decreases v@.len() - j,
    {
        if v[j].0 == *id {
            let name = v[j].0.clone();
            let n = v[j].1;
            v.set(j, (name, n + 1));
            proof {
                let v0 = old(v)@;
                assert(exists|i: int| 0 <= i < v0.len() && (#[trigger] v0[i]).0@ == id@) by {
                    assert(v0[j as int].0@ == id@);
                }
                let c = choose|i: int| 0 <= i < v0.len() && (#[trigger] v0[i]).0@ == id@ && forall|x: int| 0 <= x < i ==> (#[trigger] v0[x]).0@ != id@;
                assert(0 <= j < v0.len() && v0[j as int].0@ == id@ && forall|x: int| 0 <= x < j ==> (#[trigger] v0[x]).0@ != id@);
                if c < j {
                    assert(v0[c].0@ != id@);
                } else if j < c {
                    assert(v0[j as int].0@ != id@);
                }
            }
            return;
        }
        j = j + 1;
    }
    let ghost v0 = v@;
    v.push((id.clone(), 1));
    proof {
        assert(v@.drop_last() =~= v0);
    }
}

/// The player with the given name is at the table.
fn seat_of_name(players: &Vec<Player>, name: &String) -> (r: usize)
    requires
        exists|o: int| first_named(players@, name@, o),
    ensures
        first_named(players@, name@, r as int),
{
    match find_player(players, name) {
        Some(o) => o,
        None => {
            proof {
                let o = choose|o: int| first_named(players@, name@, o);
                assert(players@[o].name@ == name@);
            }
            0
        },
    }
}

impl Game {
    /// Where the card with the given id is first found, as `found_at` says.
    pub fn find_card_seat(&self, id: &String) -> (r: Option<(usize, FrontendPileName, usize)>)
        ensures
            match r {
                Some((pi, pile, k)) => found_at(self.players@, id@, pi as int, pile, k as int),
                None => forall|pi: int| 0 <= pi < self.players@.len() ==> !holds_card(#[trigger] self.players@[pi], id@),
            },
    {
        let mut pi: usize = 0;
        while pi < self.players.len()
            invariant
                pi <= self.players@.len(),
                forall|pj: int| 0 <= pj < pi ==> !holds_card(#[trigger] self.players@[pj], id@),
            decreases self.players@.len() - pi,
        {
            let player = &self.players[pi];
            let found = match crate::game::position_in(&player.cards_in_hand, id) {
                Some(k) => Some((k, FrontendPileName::Hand)),
                None => match crate::game::position_in(&player.spells, id) {
                    Some(k) => Some((k, FrontendPileName::Spell)),
                    None => match crate::game::position_in(&player.cards_in_play, id) {
                        Some(k) => Some((k, FrontendPileName::Play)),
                        None => match crate::game::position_in(&player.deck.draw_pile, id) {
                            Some(k) => Some((k, FrontendPileName::Deck)),
                            None => None,
                        },
                    },
                },
            };
            match found {
                Some((k, pile)) => {
                    return Some((pi, pile, k));
                },
                None => {},
            }
            pi = pi + 1;
        }
        None
    }

    /// Takes the card at seat `pi`, in `pile`, at place `k` out of its pile.
    pub(crate) fn take_card(&mut self, pi: usize, pile: FrontendPileName, k: usize) -> (c: Card)
        requires
            pi < old(self).players@.len(),
            k < pile_of(old(self).players@[pi as int], pile).len(),
        ensures
            c == pile_of(old(self).players@[pi as int], pile)[k as int],
            *final(self) == (Game { players: final(self).players, ..*old(self) }),
            final(self).players@.len() == old(self).players@.len(),
            forall|j: int| 0 <= j < old(self).players@.len() && j != pi ==> #[trigger] final(self).players@[j] == old(self).players@[j],
            pile_replaced(old(self).players@[pi as int], final(self).players@[pi as int], pile,
                pile_of(old(self).players@[pi as int], pile).remove(k as int)),
    {
        let mut p = self.players.remove(pi);
        let c = match pile {
            FrontendPileName::Hand => p.cards_in_hand.remove(k),
            FrontendPileName::Spell => p.spells.remove(k),
            FrontendPileName::Play => p.cards_in_play.remove(k),
            FrontendPileName::Deck => p.deck.draw_pile.remove(k),
            FrontendPileName::Exiled => p.deck.exiled.remove(k),
            FrontendPileName::Graveyard => p.deck.graveyard.remove(k),
        };
        self.players.insert(pi, p);
        proof {
            assert forall|j: int| 0 <= j < old(self).players@.len() && j != pi implies #[trigger] self.players@[j] == old(self).players@[j] by {
                if j < pi {
                    assert(self.players@[j] == old(self).players@[j]);
                } else {
                    assert(self.players@[j] == old(self).players@[j]);
                }
            }
        }
        c
    }

    /// Puts `c` back at seat `pi`, in `pile`, at place `k`.
    pub(crate) fn put_card(&mut self, pi: usize, pile: FrontendPileName, k: usize, c: Card)
        requires
            pi < old(self).players@.len(),
            k <= pile_of(old(self).players@[pi as int], pile).len(),
        ensures
            *final(self) == (Game { players: final(self).players, ..*old(self) }),
            final(self).players@.len() == old(self).players@.len(),
            forall|j: int| 0 <= j < old(self).players@.len() && j != pi ==> #[trigger] final(self).players@[j] == old(self).players@[j],
            pile_replaced(old(self).players@[pi as int], final(self).players@[pi as int], pile,
                pile_of(old(self).players@[pi as int], pile).insert(k as int, c)),
    {
        let mut p = self.players.remove(pi);
        match pile {
            FrontendPileName::Hand => p.cards_in_hand.insert(k, c),
            FrontendPileName::Spell => p.spells.insert(k, c),
            FrontendPileName::Play => p.cards_in_play.insert(k, c),
            FrontendPileName::Deck => p.deck.draw_pile.insert(k, c),
            FrontendPileName::Exiled => p.deck.exiled.insert(k, c),
            FrontendPileName::Graveyard => p.deck.graveyard.insert(k, c),
        }
        self.players.insert(pi, p);
        proof {
            assert forall|j: int| 0 <= j < old(self).players@.len() && j != pi implies #[trigger] self.players@[j] == old(self).players@[j] by {
                if j < pi {
                    assert(self.players@[j] == old(self).players@[j]);
                } else {
                    assert(self.players@[j] == old(self).players@[j]);
                }
            }
        }
    }

    /// Replaces the card at seat `pi`, in `pile`, at place `k` by what the
    /// card's change leaves of it: taking it out and putting the changed
    /// card back amounts to setting it.
    pub(crate) proof fn lemma_take_put(g0: Game, g1: Game, g2: Game, pi: int, pile: FrontendPileName, k: int, c: Card)
        requires
            0 <= pi < g0.players@.len(),
            0 <= k < pile_of(g0.players@[pi], pile).len(),
            g1 == (Game { players: g1.players, ..g0 }),
            g1.players@.len() == g0.players@.len(),
            forall|j: int| 0 <= j < g0.players@.len() && j != pi ==> #[trigger] g1.players@[j] == g0.players@[j],
            pile_replaced(g0.players@[pi], g1.players@[pi], pile, pile_of(g0.players@[pi], pile).remove(k)),
            g2 == (Game { players: g2.players, ..g1 }),
            g2.players@.len() == g1.players@.len(),
            forall|j: int| 0 <= j < g1.players@.len() && j != pi ==> #[trigger] g2.players@[j] == g1.players@[j],
            pile_replaced(g1.players@[pi], g2.players@[pi], pile, pile_of(g1.players@[pi], pile).insert(k, c)),
        ensures
            card_set(g0, g2, pi, pile, k, c),
    {
        assert(pile_of(g0.players@[pi], pile).remove(k).insert(k, c) =~= pile_of(g0.players@[pi], pile).update(k, c));
        assert forall|j: int| 0 <= j < g0.players@.len() && j != pi implies #[trigger] g2.players@[j] == g0.players@[j] by {
            assert(g2.players@[j] == g1.players@[j]);
        }
    }

    /// The seat of the player a client position names, and a copy of the
    /// card at that position.
    pub(crate) fn target_of(&self, t: &FrontendCardTarget) -> (r: (usize, Card))
        requires
            target_ok(self.players@, *t),
        ensures
            r.0 as int == target_seat(self.players@, *t),
            same_card(r.1, target_card(self.players@, *t)),
    {
        let q = seat_of_name(&self.players, &t.player_id);
        proof {
            let q0 = target_seat(self.players@, *t);
            crate::effects::lemma_first_named_unique(self.players@, t.player_id@, q as int, q0);
        }
        let c = self.card_from_frontend_card_target(t);
        (q, c)
    }

    /// Gives the player at the seat a stat of the type and amount, and gives
    /// back what the player's cards in play other than the source answer it
    /// with.
    pub fn add_stat(&mut self, source: &String, o: usize, st: StatType, amount: i16) -> (r: Vec<GameAction>)
        requires
            o < old(self).players@.len(),
            old(self).players@[o as int].stat_manager.wf(),
        ensures
            stat_given(*old(self), *final(self), o as int, st, amount as int, source@, r@),
    {
        let ghost g0 = *self;
        let mut p = self.players.remove(o);
        p.add_stat_type(st, amount);
        self.players.insert(o, p);
        proof {
            assert(self.players@ =~= g0.players@.update(o as int, self.players@[o as int]));
            let id = choose|id: Seq<char>| id.len() == 26 && self.players@[o as int].stat_manager.as_map() == g0.players@[o as int].stat_manager.as_map().insert(id, Stat { stat_type: st, intensity: amount })
                && forall|t: StatType| #[trigger] self.players@[o as int].stat_manager.total(t) == g0.players@[o as int].stat_manager.total(t)
                    - (if g0.players@[o as int].stat_manager.as_map().contains_key(id) { crate::stat::contribution((id, g0.players@[o as int].stat_manager.as_map()[id]), t) } else { 0 })
                    + crate::stat::contribution((id, Stat { stat_type: st, intensity: amount }), t);
            assert(stat_added(g0.players@[o as int].stat_manager, self.players@[o as int].stat_manager, id, Stat { stat_type: st, intensity: amount as int as i16 }));
        }
        let cards = &self.players[o].cards_in_play;
        let ghost cs = g0.players@[o as int].cards_in_play@;
        let mut actions: Vec<GameAction> = Vec::new();
        let mut ci: usize = 0;
        while ci < cards.len()
            invariant
                cards@ == cs,
                ci <= cs.len(),
                same_game_actions(actions@, stat_change_answers(cs.subrange(0, ci as int), source@, st)),
            decreases cs.len() - ci,
        {
            let card = &cards[ci];
            let ghost want0 = stat_change_answers(cs.subrange(0, ci as int), source@, st);
            proof {
                assert(cs.subrange(0, ci as int + 1).drop_last() =~= cs.subrange(0, ci as int));
            }
            if card.id != *source {
                let mut t: usize = 0;
                while t < card.triggers.len()
                    invariant
                        t <= card.triggers@.len(),
                        same_game_actions(actions@, want0 + card_stat_answers(*card, card.triggers@.subrange(0, t as int), st)),
                    decreases card.triggers@.len() - t,
                {
                    let tr = &card.triggers[t];
                    let ghost b2 = actions@;
                    let ghost w0 = want0 + card_stat_answers(*card, card.triggers@.subrange(0, t as int), st);
                    proof {
                        assert(card.triggers@.subrange(0, t as int + 1).drop_last() =~= card.triggers@.subrange(0, t as int));
                    }
                    let answers = match &tr.trigger_type {
                        ActionTriggerType::PlayerStatChanged(looking_for) => *looking_for == st,
                        _ => false,
                    };
                    if answers {
                        actions.push(GameAction::Card(CardActionWrapper {
                            card: card.id.clone(),
                            action: tr.action.copy(),
                            target: None,
                            ability_id: Some(tr.id.clone()),
                        }));
                        proof {
                            let w1 = want0 + card_stat_answers(*card, card.triggers@.subrange(0, t as int + 1), st);
                            assert forall|k: int| 0 <= k < actions@.len() implies same_game_action(#[trigger] actions@[k], w1[k]) by {
                                if k < b2.len() {
                                    assert(actions@[k] == b2[k]);
                                    assert(w1[k] == w0[k]);
                                }
                            }
                        }
                    } else {
                        proof {
                            assert(want0 + card_stat_answers(*card, card.triggers@.subrange(0, t as int + 1), st) =~= w0);
                        }
                    }
                    t = t + 1;
                }
                proof {
                    assert(card.triggers@.subrange(0, card.triggers@.len() as int) =~= card.triggers@);
                    assert(stat_change_answers(cs.subrange(0, ci as int + 1), source@, st) =~= want0 + card_stat_answers(*card, card.triggers@, st));
                }
            } else {
                proof {
                    assert(stat_change_answers(cs.subrange(0, ci as int + 1), source@, st) =~= want0);
                }
            }
            ci = ci + 1;
        }
        proof {
            assert(cs.subrange(0, cs.len() as int) =~= cs);
        }
        actions
    }

    /// Carries out a card's action, as the card it belongs to finds it at
    /// the table, and gives back what it sets off; a use of an ability, when
    /// it goes well, is counted.
    pub fn execute_card_action(&mut self, w: &CardActionWrapper) -> (r: Result<Vec<GameAction>, String>)
        requires
            card_action_ready(*old(self), *w),
            forall|j: int| 0 <= j < old(self).triggers_played_this_turn@.len()
                ==> (#[trigger] old(self).triggers_played_this_turn@[j]).1 < i32::MAX,
        ensures
            card_action_done(*old(self), Game { triggers_played_this_turn: old(self).triggers_played_this_turn, ..*final(self) }, *w, r),
            match (r, w.ability_id) {
                (Ok(_), Some(a)) => ability_counted(old(self).triggers_played_this_turn@, final(self).triggers_played_this_turn@, a@),
                _ => final(self).triggers_played_this_turn == old(self).triggers_played_this_turn,
            },
    {
        let ghost g0 = *self;
        let (pi, pile, k) = match self.find_card_seat(&w.card) {
            Some(x) => x,
            None => {
                proof {
                    let (a, b, c) = choose|a: int, b: FrontendPileName, c: int| found_at(g0.players@, w.card@, a, b, c);
                    assert(pile_holds(pile_of(g0.players@[a], b), w.card@));
                    assert(holds_card(g0.players@[a], w.card@));
                }
                (0, FrontendPileName::Hand, 0)
            },
        };
        proof {
            let (a, b, c) = acting_pos(g0.players@, w.card@);
            lemma_found_at_unique(g0.players@, w.card@, pi as int, pile, k as int, a, b, c);
        }
        let card = match pile {
            FrontendPileName::Hand => self.players[pi].cards_in_hand[k].copy(),
            FrontendPileName::Spell => self.players[pi].spells[k].copy(),
            FrontendPileName::Play => self.players[pi].cards_in_play[k].copy(),
            FrontendPileName::Deck => self.players[pi].deck.draw_pile[k].copy(),
            FrontendPileName::Exiled => self.players[pi].deck.exiled[k].copy(),
            FrontendPileName::Graveyard => self.players[pi].deck.graveyard[k].copy(),
        };
        let owner_name = match &card.owner {
            Some(n) => n.clone(),
            None => String::new(),
        };
        let o = seat_of_name(&self.players, &owner_name);
        proof {
            let o0 = owner_seat(g0.players@, w.card@);
            crate::effects::lemma_first_named_unique(g0.players@, owner_name@, o as int, o0);
        }
        let r = match &w.action {
            CardAction::Blank(_) => Ok(Vec::new()),
            CardAction::TapCard(_) | CardAction::AddStat(_) => self.act_on_card(w, pi, pile, k),
            CardAction::DrawCards(_) | CardAction::ReturnToHand(_) => self.act_on_owner(w, o, &card),
            CardAction::DeclareAttacker(_) | CardAction::DeclareBlocker(_) => self.act_on_combat(w),
            CardAction::CounterSpell(_) | CardAction::DestroySelf(_) | CardAction::DestroyTarget(_) => self.act_on_target(w, &card),
            CardAction::PlayCard(_) => self.play_card(w, pi, pile, k, o),
            CardAction::GenerateMana(a) => self.generate_mana(w, o),
            CardAction::ResetCard(_) => self.reset_card(w, pi, pile, k, o, &card),
            CardAction::CastAdditional(..) => self.cast_additional(w, o, card),
            CardAction::Script(name) => {
                if *name == "ossification_enters".to_string() {
                    self.ossification_enters(w, pi, pile, k)
                } else if *name == "ossification_exile".to_string() {
                    self.ossification_exile(w, pi, pile, k)
                } else {
                    self.act_on_stats(w, o, &card)
                }
            },
            _ => self.act_on_stats(w, o, &card),
        };
        match (&r, &w.ability_id) {
            (Ok(_), Some(a)) => {
                count_ability(&mut self.triggers_played_this_turn, a);
            },
            _ => {},
        }
        r
    }

    /// Plays the acting card, as `card_played` says.
    #[verifier::spinoff_prover]
    fn play_card(&mut self, w: &CardActionWrapper, pi: usize, pile: FrontendPileName, k: usize, o: usize) -> (r: Result<Vec<GameAction>, String>)
        requires
            card_action_ready(*old(self), *w),
            w.action is PlayCard,
            found_at(old(self).players@, w.card@, pi as int, pile, k as int),
            acting_pos(old(self).players@, w.card@) == (pi as int, pile, k as int),
            o as int == owner_seat(old(self).players@, w.card@),
            0 <= o < old(self).players@.len(),
        ensures
            card_action_done(*old(self), *final(self), *w, r),
    {
        let ghost g0 = *self;
        let c = self.take_card(pi, pile, k);
        let ghost mid = self.players@;
        proof {
            assert(card_taken(g0.players@, mid, pi as int, pile, k as int));
        }
        if c.is_countered {
            let mut p = self.players.remove(o);
            p.deck.destroy(c.id.clone());
            self.players.insert(o, p);
            proof {
                assert(self.players@ =~= mid.update(o as int, self.players@[o as int]));
            }
            let mut message = "Spell ".to_string();
            message.append(&c.name);
            message.append(" was countered and moved to graveyard.");
            self.add_turn_message(message);
            proof {
                assert(self.turn_messages@.drop_last() =~= g0.turn_messages@);
            }
            Ok(Vec::new())
        } else {
            let ghost cc = c;
            let land = match c.card_type {
                CardType::BasicLand(_) | CardType::AdvancedLand(_) | CardType::AdvancedMultiLand(_, _) => true,
                _ => false,
            };
            let played = c.copy();
            let mut p = self.players.remove(o);
            p.cards_in_play.push(c);
            if land {
                p.mana_pool.played_card = true;
            }
            self.players.insert(o, p);
            proof {
                assert(self.players@ =~= mid.update(o as int, self.players@[o as int]));
                assert(table_handled(self.players@)) by {
                    assert forall|i: int| 0 <= i < self.players@.len() implies crate::execute::cards_handled(#[trigger] self.players@[i].cards_in_play@) by {
                        assert forall|j: int, m: int| 0 <= j < self.players@[i].cards_in_play@.len() && 0 <= m < self.players@[i].cards_in_play@[j].triggers@.len()
                            implies !kind_unhandled(#[trigger] self.players@[i].cards_in_play@[j].triggers@[m].trigger_type) by {
                            if i == o && j == self.players@[i].cards_in_play@.len() - 1 {
                                assert(self.players@[i].cards_in_play@[j] == cc);
                            } else {
                                assert(cards_handled(g0.players@[i].cards_in_play@));
                                let cur = self.players@[i].cards_in_play@[j];
                                if i == o {
                                    assert(cur == mid[i].cards_in_play@[j]);
                                }
                                if i == pi && pile == FrontendPileName::Play {
                                    let src = pile_of(g0.players@[i], pile);
                                    assert(mid[i].cards_in_play@ == src.remove(k as int));
                                    if j < k {
                                        assert(mid[i].cards_in_play@[j] == src[j]);
                                    } else {
                                        assert(mid[i].cards_in_play@[j] == src[j + 1]);
                                    }
                                } else {
                                    assert(mid[i].cards_in_play@ == g0.players@[i].cards_in_play@);
                                }
                            }
                        }
                    }
                }
                lemma_table_handled(self.players@, played.id@);
            }
            let actions = self.collect_card_played_actions(&played, &w.target);
            Ok(actions)
        }
    }

    /// Adds the action's mana to the owner's pool, one by one.
    fn generate_mana(&mut self, w: &CardActionWrapper, o: usize) -> (r: Result<Vec<GameAction>, String>)
        requires
            card_action_ready(*old(self), *w),
            w.action is GenerateMana,
            o as int == owner_seat(old(self).players@, w.card@),
            0 <= o < old(self).players@.len(),
        ensures
            card_action_done(*old(self), *final(self), *w, r),
    {
        let ghost g0 = *self;
        let ms = match &w.action {
            CardAction::GenerateMana(a) => &a.mana_to_add,
            _ => {
                proof { assert(false); }
                return Ok(Vec::new());
            },
        };
        let mut p = self.players.remove(o);
        let ghost p0 = p;
        let mut i: usize = 0;
        while i < ms.len()
            invariant
                i <= ms@.len(),
                forall|t: ManaType| #[trigger] p0.mana_pool.amount(t) + count_of(ms@, t) <= 255,
                p == (Player { mana_pool: pool_with(p0.mana_pool, ms@.subrange(0, i as int)), ..p0 }),
            decreases ms@.len() - i,
        {
            proof {
                assert(ms@.subrange(0, i as int + 1).drop_last() =~= ms@.subrange(0, i as int));
                let pre = ms@.subrange(0, i as int);
                assert forall|t: ManaType| #[trigger] p0.mana_pool.amount(t) + count_of(pre, t) <= 255 by {
                    crate::player::lemma_count_prefix_le(ms@, i as int, t);
                }
                lemma_pool_with_amount(p0.mana_pool, pre, ms@[i as int]);
                crate::player::lemma_count_prefix_le(ms@, i as int + 1, ms@[i as int]);
                crate::player::lemma_count_prefix_step(ms@, i as int, ms@[i as int]);
            }
            p.mana_pool.add_mana(ms[i]);
            i = i + 1;
        }
        proof {
            assert(ms@.subrange(0, ms@.len() as int) =~= ms@);
        }
        self.players.insert(o, p);
        proof {
            assert(self.players@ =~= g0.players@.update(o as int, self.players@[o as int]));
        }
        Ok(Vec::new())
    }

    /// Tapping the acting card, or adding a stat to it.
    fn act_on_card(&mut self, w: &CardActionWrapper, pi: usize, pile: FrontendPileName, k: usize) -> (r: Result<Vec<GameAction>, String>)
        requires
            card_action_ready(*old(self), *w),
            w.action is TapCard || w.action is AddStat,
            found_at(old(self).players@, w.card@, pi as int, pile, k as int),
            acting_pos(old(self).players@, w.card@) == (pi as int, pile, k as int),
        ensures
            card_action_done(*old(self), *final(self), *w, r),
    {
        let ghost g0 = *self;
        let mut c = self.take_card(pi, pile, k);
        let ghost g1 = *self;
        match &w.action {
            CardAction::AddStat(a) => {
                c.stats.add_stat(a.id.clone(), a.stat);
            },
            _ => {
                c.tapped = true;
            },
        }
        self.put_card(pi, pile, k, c);
        proof {
            Self::lemma_take_put(g0, g1, *self, pi as int, pile, k as int, c);
        }
        Ok(Vec::new())
    }

    /// Drawing for the owner, or returning a card to the owner's hand.
    fn act_on_owner(&mut self, w: &CardActionWrapper, o: usize, card: &Card) -> (r: Result<Vec<GameAction>, String>)
        requires
            card_action_ready(*old(self), *w),
            w.action is DrawCards || w.action is ReturnToHand,
            o as int == owner_seat(old(self).players@, w.card@),
            0 <= o < old(self).players@.len(),
        ensures
            card_action_done(*old(self), *final(self), *w, r),
    {
        let ghost g0 = *self;
        match &w.action {
            CardAction::DrawCards(a) => {
                let mut p = self.players.remove(o);
                if a.count > 0 {
                    crate::flow::draw_cards(&mut p, a.count as usize);
                } else {
                    proof {
                        assert(crate::player::draw_chain(seq![p], p, p, 0));
                    }
                }
                self.players.insert(o, p);
                proof {
                    assert(self.players@ =~= g0.players@.update(o as int, self.players@[o as int]));
                }
                Ok(Vec::new())
            },
            _ => {
                match &w.target {
                    Some(FrontendTarget::Card(t)) => {
                        let (q, tc) = self.target_of(t);
                        let mut p = self.players.remove(o);
                        p.return_card_to_hand(&tc.id);
                        let mut message = "Returned ".to_string();
                        message.append(&tc.name);
                        message.append(" to ");
                        message.append(&p.name);
                        message.append("'s hand.");
                        self.players.insert(o, p);
                        proof {
                            assert(self.players@ =~= g0.players@.update(o as int, self.players@[o as int]));
                        }
                        self.add_turn_message(message);
                        proof {
                            assert(self.turn_messages@.drop_last() =~= g0.turn_messages@);
                        }
                        Ok(Vec::new())
                    },
                    _ => Ok(Vec::new()),
                }
            },
        }
    }

    /// Declaring the acting card an attacker or a blocker.
    fn act_on_combat(&mut self, w: &CardActionWrapper) -> (r: Result<Vec<GameAction>, String>)
        requires
            card_action_ready(*old(self), *w),
            w.action is DeclareAttacker || w.action is DeclareBlocker,
        ensures
            card_action_done(*old(self), *final(self), *w, r),
    {
        let ghost g0 = *self;
        match &w.action {
            CardAction::DeclareAttacker(_) => {
                match &w.target {
                    None => {},
                    Some(FrontendTarget::Player(n)) => {
                        self.combat.declare_attacker(w.card.clone(), EffectTarget::Player(n.clone()));
                        proof {
                            assert(self.combat.attackers@.drop_last() =~= g0.combat.attackers@);
                        }
                    },
                    Some(FrontendTarget::Card(t)) => {
                        let (q, tc) = self.target_of(t);
                        self.combat.declare_attacker(w.card.clone(), EffectTarget::Card(tc.id));
                        proof {
                            assert(self.combat.attackers@.drop_last() =~= g0.combat.attackers@);
                        }
                    },
                }
            },
            _ => {
                match &w.target {
                    Some(FrontendTarget::Card(t)) => {
                        let (q, tc) = self.target_of(t);
                        self.combat.declare_blocker(w.card.clone(), tc.id);
                        proof {
                            assert(self.combat.blockers@.drop_last() =~= g0.combat.blockers@);
                        }
                    },
                    _ => {},
                }
            },
        }
        Ok(Vec::new())
    }

    /// Countering the targeted spell, or destroying the acting or the targeted card.
    fn act_on_target(&mut self, w: &CardActionWrapper, card: &Card) -> (r: Result<Vec<GameAction>, String>)
        requires
            card_action_ready(*old(self), *w),
            w.action is CounterSpell || w.action is DestroySelf || w.action is DestroyTarget,
            same_card(*card, acting_card(old(self).players@, w.card@)),
        ensures
            card_action_done(*old(self), *final(self), *w, r),
    {
        let ghost g0 = *self;
        match &w.action {
            CardAction::CounterSpell(_) => {
                match &w.target {
                    Some(FrontendTarget::Card(t)) => {
                        let (q, tc) = self.target_of(t);
                        let idx = t.card_index as usize;
                        let mut c = self.take_card(q, t.pile, idx);
                        let ghost g1 = *self;
                        c.is_countered = true;
                        self.put_card(q, t.pile, idx, c);
                        proof {
                            Self::lemma_take_put(g0, g1, *self, q as int, t.pile, idx as int, c);
                        }
                        Ok(Vec::new())
                    },
                    _ => Err("No target?".to_string()),
                }
            },
            CardAction::DestroySelf(_) => self.destroy_card(card),
            _ => {
                match &w.target {
                    None => Err("Nothing to destroy".to_string()),
                    Some(FrontendTarget::Player(_)) => Err("Cannot destroy a player".to_string()),
                    Some(FrontendTarget::Card(t)) => {
                        let (q, tc) = self.target_of(t);
                        self.destroy_card(&tc)
                    },
                }
            },
        }
    }

    /// Life link, damage to a player, and the scripts that give the owner life.
    fn act_on_stats(&mut self, w: &CardActionWrapper, o: usize, card: &Card) -> (r: Result<Vec<GameAction>, String>)
        requires
            card_action_ready(*old(self), *w),
            w.action is LifeLink || w.action is CardDamage
                || (w.action matches CardAction::Script(n) && n@ != "ossification_enters"@ && n@ != "ossification_exile"@),
            o as int == owner_seat(old(self).players@, w.card@),
            0 <= o < old(self).players@.len(),
            same_card(*card, acting_card(old(self).players@, w.card@)),
        ensures
            card_action_done(*old(self), *final(self), *w, r),
    {
        let ghost g0 = *self;
        let ghost c0 = acting_card(g0.players@, w.card@);
        match &w.action {
            CardAction::LifeLink(_) => {
                if card.get_stat_value(StatType::Lifelink) > 0 {
                    Ok(self.add_stat(&card.id, o, StatType::Health, card.damage_dealt_to_players))
                } else {
                    Ok(Vec::new())
                }
            },
            CardAction::CardDamage(_) => {
                match &w.target {
                    Some(FrontendTarget::Player(n)) => {
                        match find_player(&self.players, n) {
                            Some(q) => {
                                proof {
                                    let q0 = choose|q: int| first_named(g0.players@, n@, q);
                                    crate::effects::lemma_first_named_unique(g0.players@, n@, q as int, q0);
                                    assert(card.stats.total(StatType::Power) == c0.stats.total(StatType::Power));
                                    assert(i16::MIN < card_damage(c0, g0.players@[q as int]) <= i16::MAX);
                                }
                                let offense = card.get_stat_value(StatType::Power);
                                let defense = self.players[q].stat_manager.get_stat_value(StatType::Toughness);
                                proof {
                                    assert(offense == c0.stats.total(StatType::Power));
                                    assert(defense == g0.players@[q as int].stat_manager.total(StatType::Toughness));
                                }
                                let total = offense - defense;
                                let mut p = self.players.remove(q);
                                let id = crate::rng::new_ulid();
                                let stat = Stat::new(StatType::Health, -total);
                                p.stat_manager.add_stat(id, stat);
                                self.players.insert(q, p);
                                proof {
                                    assert(self.players@ =~= g0.players@.update(q as int, self.players@[q as int]));
                                    assert(stat_added(g0.players@[q as int].stat_manager, self.players@[q as int].stat_manager, id@, stat));
                                }
                                Ok(Vec::new())
                            },
                            None => Err("Unable to find target".to_string()),
                        }
                    },
                    _ => Ok(Vec::new()),
                }
            },
            CardAction::Script(name) => {
                let two = "gain_two_life".to_string();
                if *name == two {
                    Ok(self.add_stat(&card.id, o, StatType::Health, 2))
                } else if card.card_type == CardType::Creature {
                    Ok(self.add_stat(&card.id, o, StatType::Health, 1))
                } else {
                    Ok(Vec::new())
                }
            },
            _ => Ok(Vec::new()),
        }
    }
}

} // verus!

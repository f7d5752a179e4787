//! Resolving the stack of waiting actions: the action on top is taken off
//! and carried out, the actions it sets off go on top, and so on until the
//! stack is empty; then the spells are cleared and the effects applied.
use vstd::prelude::*;
use crate::action::{GameAction, same_game_actions};
use crate::effects::{effects_run, stats_wf};
use crate::execute::{ability_counted, card_action_done, card_action_ready, player_action_done, player_action_ready};
use crate::game::{Game, TargetPolicy, health_countable, omnipresent_flags, picked, standing, table_pairs};
use crate::player::Player;

verus! {

/// Every use count of an ability this turn can still grow by one.
pub open spec fn counts_can_grow(g: Game) -> bool {
    forall|j: int| 0 <= j < g.triggers_played_this_turn@.len() ==> (#[trigger] g.triggers_played_this_turn@[j]).1 < i32::MAX
}

/// The action can be carried out on the game.
pub open spec fn action_ready(g: Game, a: GameAction) -> bool {
    match a {
        GameAction::Card(w) => card_action_ready(g, w) && counts_can_grow(g),
        GameAction::Player(w) => player_action_ready(g, w),
    }
}

/// How carrying out the action changed the game from `g0` to `g1`, and what
/// it gave back: as `Game::execute_card_action` and
/// `Game::execute_player_action` state it.
pub open spec fn action_done(g0: Game, g1: Game, a: GameAction, r: Result<Vec<GameAction>, String>) -> bool {
    match a {
        GameAction::Card(w) => {
            &&& card_action_done(g0, Game { triggers_played_this_turn: g0.triggers_played_this_turn, ..g1 }, w, r)
            &&& match (r, w.ability_id) {
                (Ok(_), Some(id)) => ability_counted(g0.triggers_played_this_turn@, g1.triggers_played_this_turn@, id@),
                _ => g1.triggers_played_this_turn == g0.triggers_played_this_turn,
            }
        },
        GameAction::Player(w) => player_action_done(g0, g1, w, r),
    }
}

/// `g1` is `g0` with the action on top of the stack taken off.
pub open spec fn stack_popped(g0: Game, g1: Game) -> bool {
    &&& g1 == (Game { event_stack: g1.event_stack, ..g0 })
    &&& g1.event_stack@ == g0.event_stack@.drop_last()
}

/// `g1` is `g0` with the actions put on top of the stack, the last on top.
pub open spec fn stack_pushed(g0: Game, g1: Game, v: Seq<GameAction>) -> bool {
    &&& g1 == (Game { event_stack: g1.event_stack, ..g0 })
    &&& g1.event_stack@ == g0.event_stack@ + v
}

/// `g1` is `g0` with every player's spells cleared.
pub open spec fn spells_cleared(g0: Game, g1: Game) -> bool {
    &&& g1 == (Game { players: g1.players, ..g0 })
    &&& g1.players@.len() == g0.players@.len()
    &&& forall|pi: int| 0 <= pi < g0.players@.len() ==> {
        &&& #[trigger] g1.players@[pi] == (Player { spells: g1.players@[pi].spells, ..g0.players@[pi] })
        &&& g1.players@[pi].spells@.len() == 0
    }
}

/// The effects can be applied: the stats are well formed and every effect
/// names the card it comes from.
pub open spec fn effects_ready(g: Game) -> bool {
    &&& stats_wf(g.players@)
    &&& forall|i: int| 0 <= i < g.effect_manager.effects@.len() ==> (#[trigger] g.effect_manager.effects@[i]).1.source_card is Some
}

/// How the game settles once the stack is empty: the spells are cleared and,
/// during a turn, the effects are applied; where they cannot be, the game is
/// left with its spells cleared and an error comes back.
pub open spec fn settled(g0: Game, g1: Game, r: Result<(), String>) -> bool {
    exists|gs: Game| #![trigger spells_cleared(g0, gs)] {
        &&& spells_cleared(g0, gs)
        &&& match g0.current_turn {
            None => g1 == gs && r is Ok,
            Some(t) => if effects_ready(gs) {
                &&& r is Ok
                &&& g1 == (Game { players: g1.players, effect_manager: g1.effect_manager, ..gs })
                &&& effects_run(gs.players@, gs.effect_manager.effects@, t.turn_number, g1.players@, g1.effect_manager.effects@)
            } else {
                g1 == gs && (r matches Err(e) && e@ == "The effects cannot be applied"@)
            },
        }
    }
}

/// How resolving the stack with at most `fuel` actions changes the game from
/// `g0` to `g1`: the action on top is taken off and, when it can be carried
/// out, carried out; an error it gives ends the resolution, and the actions
/// it sets off go on top of the stack. Once the stack is empty the game
/// settles. An action that cannot be carried out, or running out of fuel,
/// ends the resolution with an error.
pub open spec fn resolves(g0: Game, g1: Game, fuel: nat, r: Result<(), String>) -> bool
    decreases fuel,
{
    if g0.event_stack@.len() == 0 {
        settled(g0, g1, r)
    } else if fuel == 0 {
        g1 == g0 && (r matches Err(e) && e@ == "Too many actions to resolve"@)
    } else {
        let a = g0.event_stack@.last();
        exists|gp: Game| #![trigger stack_popped(g0, gp)] {
            &&& stack_popped(g0, gp)
            &&& if !action_ready(gp, a) {
                g1 == gp && (r matches Err(e) && e@ == "The action cannot be carried out"@)
            } else {
                exists|gm: Game, res: Result<Vec<GameAction>, String>| #![trigger action_done(gp, gm, a, res)] {
                    &&& action_done(gp, gm, a, res)
                    &&& match res {
                        Err(e) => g1 == gm && r == Err::<(), String>(e),
                        Ok(v) => exists|gn: Game| #![trigger stack_pushed(gm, gn, v@)]
                            stack_pushed(gm, gn, v@) && resolves(gn, g1, (fuel - 1) as nat, r),
                    }
                }
            }
        }
    }
}

/// How carrying out a list of actions changes the game from `g0` to `g1`:
/// they go on the stack, which is resolved; the actions of the omnipresent
/// triggers then go on it and it is resolved again; last, the players whose
/// health is gone leave the game.
pub open spec fn actions_executed(g0: Game, g1: Game, actions: Seq<GameAction>, fuel: nat, r: Result<(), String>) -> bool {
    exists|g2: Game, g3: Game, r3: Result<(), String>| #![trigger stack_pushed(g0, g2, actions), resolves(g2, g3, fuel, r3)] {
        &&& stack_pushed(g0, g2, actions)
        &&& resolves(g2, g3, fuel, r3)
        &&& match r3 {
            Err(e) => g1 == g3 && r == Err::<(), String>(e),
            Ok(_) => exists|m: Seq<GameAction>, g4: Game, g5: Game, r5: Result<(), String>| #![trigger stack_pushed(g3, g4, m), resolves(g4, g5, fuel, r5)] {
                &&& same_game_actions(m, picked(table_pairs(g3.players@), omnipresent_flags(table_pairs(g3.players@)), TargetPolicy::CardsOwn))
                &&& stack_pushed(g3, g4, m)
                &&& resolves(g4, g5, fuel, r5)
                &&& match r5 {
                    Err(e) => g1 == g5 && r == Err::<(), String>(e),
                    Ok(_) => if health_countable(g5.players@) {
                        &&& r is Ok
                        &&& g1 == (Game { players: g1.players, ..g5 })
                        &&& g1.players@ == g5.players@.filter(|p: Player| standing(p))
                    } else {
                        g1 == g5 && (r matches Err(e) && e@ == "The players' health cannot be counted"@)
                    },
                }
            },
        }
    }
}

impl Game {
    /// Clears the spells of every player.
    fn clear_spells(&mut self)
        ensures
            spells_cleared(*old(self), *final(self)),
    {
        let ghost g0 = *self;
        let mut i: usize = 0;
        while i < self.players.len()
            invariant
                i <= self.players@.len(),
                self.players@.len() == g0.players@.len(),
                *self == (Game { players: self.players, ..g0 }),
                forall|pi: int| 0 <= pi < i ==> {
                    &&& #[trigger] self.players@[pi] == (Player { spells: self.players@[pi].spells, ..g0.players@[pi] })
                    &&& self.players@[pi].spells@.len() == 0
                },
                forall|pi: int| i <= pi < self.players@.len() ==> #[trigger] self.players@[pi] == g0.players@[pi],
            decreases self.players@.len() - i,
        {
            let mut p = self.players.remove(i);
            p.reset_spells();
            self.players.insert(i, p);
            i = i + 1;
        }
    }

    /// Whether every effect names the card it comes from.
    fn effects_sourced(&self) -> (b: bool)
        ensures
            b == forall|i: int| 0 <= i < self.effect_manager.effects@.len() ==> (#[trigger] self.effect_manager.effects@[i]).1.source_card is Some,
    {
        let mut i: usize = 0;
        while i < self.effect_manager.effects.len()
            invariant
                i <= self.effect_manager.effects@.len(),
                forall|j: int| 0 <= j < i ==> (#[trigger] self.effect_manager.effects@[j]).1.source_card is Some,
            decreases self.effect_manager.effects@.len() - i,
        {
            if self.effect_manager.effects[i].1.source_card.is_none() {
                return false;
            }
            i = i + 1;
        }
        true
    }

    /// Settles the game once the stack is empty.
    fn settle(&mut self) -> (r: Result<(), String>)
        ensures
            settled(*old(self), *final(self), r),
    {
        self.clear_spells();
        let ghost gs = *self;
        match &self.current_turn {
            None => Ok(()),
            Some(t) => {
                let turn = *t;
                if crate::checks::stats_wf_check(&self.players) && self.effects_sourced() {
                    self.effect_manager.apply_effects(&turn, &mut self.players);
                    Ok(())
                } else {
                    Err("The effects cannot be applied".to_string())
                }
            },
        }
    }

    /// Resolves the stack, carrying out at most `fuel` actions.
    pub fn resolve_stack(&mut self, fuel: usize) -> (r: Result<(), String>)
        ensures
            resolves(*old(self), *final(self), fuel as nat, r),
        decreases fuel,
    {
        let ghost g0 = *self;
        if self.event_stack.len() == 0 {
            return self.settle();
        }
        if fuel == 0 {
            return Err("Too many actions to resolve".to_string());
        }
        let a = match self.event_stack.pop() {
            Some(a) => a,
            None => return Err("Too many actions to resolve".to_string()),
        };
        let ghost gp = *self;
        proof {
            assert(self.event_stack@ =~= g0.event_stack@.drop_last());
            assert(stack_popped(g0, gp));
        }
        let ready = match &a {
            GameAction::Card(w) => self.card_action_check(w) && crate::checks::counts_grow(&self.triggers_played_this_turn),
            GameAction::Player(w) => self.player_action_check(w),
        };
        if !ready {
            return Err("The action cannot be carried out".to_string());
        }
        let res = match &a {
            GameAction::Card(w) => self.execute_card_action(w),
            GameAction::Player(w) => self.execute_player_action(w),
        };
        let ghost gm = *self;
        proof {
            assert(action_done(gp, gm, a, res));
        }
        match res {
            Err(e) => Err(e),
            Ok(v) => {
                let mut v = v;
                let ghost vv = v@;
                self.event_stack.append(&mut v);
                let ghost gn = *self;
                proof {
                    assert(stack_pushed(gm, gn, vv));
                }
                let r = self.resolve_stack(fuel - 1);
                proof {
                    assert(resolves(gn, *self, (fuel - 1) as nat, r));
                }
                r
            },
        }
    }

    /// Carries out the actions: they go on the stack, which is resolved;
    /// then the actions of the omnipresent triggers, which are resolved in
    /// turn; and last, the players whose health is gone leave the game. Each
    /// resolution carries out at most `fuel` actions.
    pub fn execute_actions(&mut self, actions: Vec<GameAction>, fuel: usize) -> (r: Result<(), String>)
        ensures
            actions_executed(*old(self), *final(self), actions@, fuel as nat, r),
    {
        let ghost g0 = *self;
        let mut actions = actions;
        let ghost av = actions@;
        self.event_stack.append(&mut actions);
        let ghost g2 = *self;
        let r3 = self.resolve_stack(fuel);
        let ghost g3 = *self;
        match r3 {
            Err(e) => {
                proof {
                    assert(stack_pushed(g0, g2, av));
                }
                return Err(e);
            },
            Ok(_) => {},
        }
        let mut more = self.collect_omnipresent_actions();
        let ghost mv = more@;
        self.event_stack.append(&mut more);
        let ghost g4 = *self;
        let r5 = self.resolve_stack(fuel);
        let ghost g5 = *self;
        proof {
            assert(stack_pushed(g0, g2, av));
            assert(stack_pushed(g3, g4, mv));
        }
        match r5 {
            Err(e) => Err(e),
            Ok(_) => {
                if crate::checks::health_check(&self.players) {
                    let _defeated = self.handle_deaths();
                    Ok(())
                } else {
                    Err("The players' health cannot be counted".to_string())
                }
            },
        }
    }
}

} // verus!

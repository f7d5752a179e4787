//! How a turn moves on from phase to phase, and how priority goes round the
//! table. The waiting and the carrying out of actions happen around these
//! decisions: each function takes where things stand and says what comes next.
use vstd::prelude::*;
use crate::action::{GameAction, same_game_actions};
use crate::card::CardType;
use crate::game::{ActionType, Game, PriorityActionResult, health_countable, phase_actions, players_countable, priority_order, turn_started};
use crate::player::{Player, drew_cards};
use crate::turn::{Turn, TurnPhase, next_phase_of};

verus! {

/// What the turn does once a phase's actions have been carried out.
#[derive(Debug, Clone, Copy, PartialEq, Eq, Structural)]
pub enum AdvanceDecision {
    /// Stay in this phase: the current player has something to do.
    Stop,
    /// Move on to the next phase.
    Continue,
    /// Let the other players declare blockers, then move on.
    BlockersFirst,
}

/// The player has a creature on the battlefield.
pub open spec fn has_creature(p: Player) -> bool {
    exists|ci: int| 0 <= ci < p.cards_in_play@.len() && (#[trigger] p.cards_in_play@[ci]).card_type == CardType::Creature
}

/// What the turn does after the actions of its current phase: it waits in
/// the main phase, in the attack phase while the current player has a
/// creature, and lets blockers be declared when something attacks.
pub open spec fn advance_decision_of(g: Game) -> AdvanceDecision {
    let t = g.current_turn.unwrap();
    match t.phase {
        TurnPhase::Main => AdvanceDecision::Stop,
        TurnPhase::DeclareAttackers => if has_creature(g.players@[t.current_player_index as int]) {
            AdvanceDecision::Stop
        } else {
            AdvanceDecision::Continue
        },
        TurnPhase::DeclareBlockers => if g.combat.attackers@.len() == 0 {
            AdvanceDecision::Continue
        } else {
            AdvanceDecision::BlockersFirst
        },
        _ => AdvanceDecision::Continue,
    }
}

/// The seat whose turn comes after the given one, wrapping round the table.
pub open spec fn next_seat(current: i32, n: int) -> int {
    (current + 1) % n
}

/// What the poll of a player holding priority finds.
#[derive(Debug, Clone, Copy, PartialEq, Eq, Structural)]
pub enum PriorityPoll {
    /// The player played a card: priority goes round again from them.
    Restart,
    /// The player has done nothing yet.
    Waiting,
    /// The player did something else: the clock starts again.
    ResetClock,
}

/// A round of priority: the seats to ask, in order, and how many of them
/// have passed.
pub struct PriorityRound {
    pub order: Vec<usize>,
    pub passed: usize,
}

impl Game {
    /// Moves the turn on by one phase. Coming back to the untap phase starts
    /// the turn of the next seat. Gives back the actions the new phase sets off.
    pub fn advance_phase(&mut self) -> (r: Vec<GameAction>)
        requires
            old(self).current_turn is Some,
            0 <= old(self).current_turn.unwrap().current_player_index < old(self).players@.len(),
            old(self).players@.len() <= i32::MAX,
            health_countable(old(self).players@),
            players_countable(old(self).players@),
            old(self).turn_number < usize::MAX,
        ensures
            ({
                let t0 = old(self).current_turn.unwrap();
                if next_phase_of(t0.phase) == TurnPhase::Untap {
                    turn_started(*old(self), *final(self), next_seat(t0.current_player_index, old(self).players@.len() as int) as usize)
                } else {
                    *final(self) == (Game { current_turn: Some(Turn { phase: next_phase_of(t0.phase), ..t0 }), ..*old(self) })
                }
            }),
            final(self).current_turn is Some,
            same_game_actions(r@, phase_actions(final(self).players@, final(self).current_turn.unwrap(), final(self).effect_manager.effects@)),
    {
        let mut turn = match self.current_turn {
            Some(t) => t,
            None => Turn::new(0, 0),
        };
        turn.next_phase();
        self.current_turn = Some(turn);
        if turn.phase == TurnPhase::Untap {
            let len = self.players.len() as i32;
            let next = (turn.current_player_index + 1) % len;
            let ghost mid = *self;
            self.start_turn(next as usize);
            proof {
                assert forall|pi: int| 0 <= pi < self.players@.len() implies crate::player::player_triggers_countable(#[trigger] self.players@[pi]) by {
                    assert(self.players@[pi].triggers == mid.players@[pi].triggers);
                    assert(self.players@[pi].mana_pool == mid.players@[pi].mana_pool);
                    assert(crate::player::player_triggers_countable(mid.players@[pi]));
                }
            }
        }
        self.collect_actions_for_phase()
    }

    /// What the turn does after the actions of its current phase.
    pub fn advance_decision(&self) -> (d: AdvanceDecision)
        requires
            self.current_turn is Some,
            0 <= self.current_turn.unwrap().current_player_index < self.players@.len(),
        ensures
            d == advance_decision_of(*self),
    {
        let t = match self.current_turn {
            Some(t) => t,
            None => Turn::new(0, 0),
        };
        match t.phase {
            TurnPhase::Main => AdvanceDecision::Stop,
            TurnPhase::DeclareAttackers => {
                let cards = &self.players[t.current_player_index as usize].cards_in_play;
                let mut ci: usize = 0;
                while ci < cards.len()
                    invariant
                        ci <= cards@.len(),
                        self.current_turn == Some(t),
                        t.phase == TurnPhase::DeclareAttackers,
                        0 <= t.current_player_index < self.players@.len(),
                        cards@ == self.players@[t.current_player_index as int].cards_in_play@,
                        forall|j: int| 0 <= j < ci ==> (#[trigger] cards@[j]).card_type != CardType::Creature,
                    decreases cards@.len() - ci,
                {
                    if cards[ci].card_type == CardType::Creature {
                        proof {
                            assert(self.players@[t.current_player_index as int].cards_in_play@[ci as int].card_type == CardType::Creature);
                        }
                        return AdvanceDecision::Stop;
                    }
                    ci = ci + 1;
                }
                AdvanceDecision::Continue
            },
            TurnPhase::DeclareBlockers => {
                if self.combat.attackers.len() == 0 {
                    AdvanceDecision::Continue
                } else {
                    AdvanceDecision::BlockersFirst
                }
            },
            _ => AdvanceDecision::Continue,
        }
    }

    /// Whether the turn can be moved on: not while a player holds priority.
    pub fn can_advance_turn(&self) -> (b: bool)
        ensures
            b == self.current_priority_player.is_none(),
    {
        self.current_priority_player.is_none()
    }

    /// Starts a round of priority after the given seat: every other seat, in
    /// order, none of them passed yet.
    pub fn begin_priority(&self, first_player: usize) -> (round: PriorityRound)
        ensures
            round.order@ == priority_order(self.players@.len() as int, first_player as int),
            round.passed == 0,
    {
        PriorityRound { order: self.get_players_in_priority_order(first_player), passed: 0 }
    }

    /// Hands priority to the next seat of the round that has not passed,
    /// the first of the round with no time to act and the others with three
    /// seconds, and gives its seat; once every seat has passed, priority is
    /// released and none is given.
    pub fn priority_next(&mut self, round: &PriorityRound) -> (r: Option<usize>)
        requires
            round.passed <= round.order@.len(),
        ensures
            round.passed < round.order@.len() ==> {
                &&& r == Some(round.order@[round.passed as int])
                &&& final(self).current_priority_player == Some((round.order@[round.passed as int],
                    (if round.passed == 0 { 0i16 } else { 3i16 }), ActionType::NoAction))
            },
            round.passed == round.order@.len() ==> r is None && final(self).current_priority_player is None,
            *final(self) == (Game { current_priority_player: final(self).current_priority_player, ..*old(self) }),
    {
        if round.passed < round.order.len() {
            let seat = round.order[round.passed];
            let time_limit: i16 = if round.passed == 0 { 0 } else { 3 };
            self.current_priority_player = Some((seat, time_limit, ActionType::NoAction));
            Some(seat)
        } else {
            self.current_priority_player = None;
            None
        }
    }

    /// Takes in how the seat holding priority answered: playing a card starts
    /// the round again after that seat; passing, or letting the time run out,
    /// moves on to the next seat.
    pub fn priority_answer(&self, round: &mut PriorityRound, result: PriorityActionResult)
        requires
            old(round).passed < old(round).order@.len(),
        ensures
            match result {
                PriorityActionResult::ActionRequiresRestart => {
                    &&& final(round).order@ == priority_order(self.players@.len() as int, old(round).order@[old(round).passed as int] as int)
                    &&& final(round).passed == 0
                },
                _ => final(round).order@ == old(round).order@ && final(round).passed == old(round).passed + 1,
            },
    {
        match result {
            PriorityActionResult::ActionRequiresRestart => {
                let seat = round.order[round.passed];
                round.order = self.get_players_in_priority_order(seat);
                round.passed = 0;
            },
            _ => {
                let n = round.order.len();
                if round.passed < n {
                    round.passed = round.passed + 1;
                }
            },
        }
    }

    /// Looks at what the seat holding priority has done: a card played
    /// restarts the round; any other action is forgotten and the clock
    /// starts again; nothing done leaves the wait going on.
    pub fn poll_priority(&mut self) -> (r: PriorityPoll)
        ensures
            match old(self).current_priority_player {
                Some((seat, time_left, action)) => match action {
                    ActionType::PlayedCard => r == PriorityPoll::Restart && *final(self) == *old(self),
                    ActionType::NoAction => r == PriorityPoll::Waiting && *final(self) == *old(self),
                    _ => r == PriorityPoll::ResetClock
                        && *final(self) == (Game { current_priority_player: Some((seat, time_left, ActionType::NoAction)), ..*old(self) }),
                },
                None => r == PriorityPoll::Waiting && *final(self) == *old(self),
            },
    {
        match self.current_priority_player {
            Some((seat, time_left, action)) => match action {
                ActionType::PlayedCard => PriorityPoll::Restart,
                ActionType::NoAction => PriorityPoll::Waiting,
                _ => {
                    self.current_priority_player = Some((seat, time_left, ActionType::NoAction));
                    PriorityPoll::ResetClock
                },
            },
            None => PriorityPoll::Waiting,
        }
    }

    /// Notes the seconds left to the seat holding priority.
    pub fn set_priority_time_left(&mut self, seconds: i16)
        ensures
            match old(self).current_priority_player {
                Some((seat, _, action)) => *final(self) == (Game { current_priority_player: Some((seat, seconds, action)), ..*old(self) }),
                None => *final(self) == *old(self),
            },
    {
        match self.current_priority_player {
            Some((seat, _, action)) => {
                self.current_priority_player = Some((seat, seconds, action));
            },
            None => {},
        }
    }
}

/// Every player of `g1` is the one of `g0` after drawing seven cards, and
/// nothing else changed.
pub open spec fn hands_dealt(g0: Game, g1: Game) -> bool {
    &&& g1 == (Game { players: g1.players, ..g0 })
    &&& g1.players@.len() == g0.players@.len()
    &&& forall|pi: int| 0 <= pi < g0.players@.len() ==> #[trigger] drew_cards(g0.players@[pi], g1.players@[pi], 7)
}

/// Draws `n` cards into the player's hand.
pub(crate) fn draw_cards(p: &mut Player, n: usize)
    ensures
        drew_cards(*old(p), *final(p), n as nat),
{
    let ghost p0 = *p;
    let ghost mut chain: Seq<Player> = seq![p0];
    let mut k: usize = 0;
    while k < n
        invariant
            k <= n,
            crate::player::draw_chain(chain, p0, *p, k as nat),
        decreases n - k,
    {
        let ghost before = *p;
        let ghost chain0 = chain;
        p.draw_card();
        proof {
            chain = chain0.push(*p);
            assert forall|i: int| 0 <= i < k + 1 implies #[trigger] crate::player::drew_card(chain[i], chain[i + 1]) by {
                if i < k {
                    assert(chain[i] == chain0[i] && chain[i + 1] == chain0[i + 1]);
                } else {
                    assert(chain[i] == before);
                }
            }
        }
        k = k + 1;
    }
    proof {
        assert(crate::player::draw_chain(chain, p0, *p, n as nat));
    }
}

impl Game {
    /// Starts the game once every deck has had its first shuffle: every
    /// player draws seven cards, and the first seat's turn starts.
    pub fn start(&mut self)
        requires
            old(self).players@.len() > 0,
            health_countable(old(self).players@),
            old(self).turn_number < usize::MAX,
        ensures
            exists|dealt: Game| hands_dealt(*old(self), dealt) && #[trigger] turn_started(dealt, *final(self), 0),
    {
        let ghost g0 = *self;
        let mut i: usize = 0;
        while i < self.players.len()
            invariant
                i <= self.players@.len(),
                self.players@.len() == g0.players@.len(),
                *self == (Game { players: self.players, ..g0 }),
                forall|pi: int| 0 <= pi < i ==> #[trigger] drew_cards(g0.players@[pi], self.players@[pi], 7),
                forall|pi: int| i <= pi < self.players@.len() ==> #[trigger] self.players@[pi] == g0.players@[pi],
            decreases self.players@.len() - i,
        {
            let mut p = self.players.remove(i);
            draw_cards(&mut p, 7);
            self.players.insert(i, p);
            proof {
                assert forall|pi: int| 0 <= pi < i + 1 implies #[trigger] drew_cards(g0.players@[pi], self.players@[pi], 7) by {}
            }
            i = i + 1;
        }
        let ghost dealt = *self;
        proof {
            assert(hands_dealt(g0, dealt));
            assert forall|pi: int| 0 <= pi < dealt.players@.len() implies {
                &&& (#[trigger] dealt.players@[pi]).stat_manager.stats@.len() < 0x1_0000_0000
                &&& i16::MIN <= dealt.players@[pi].stat_manager.total(crate::stat::StatType::Health) <= i16::MAX
            } by {
                lemma_drew_cards_keeps_stats(g0.players@[pi], dealt.players@[pi], 7);
            }
        }
        self.start_turn(0);
    }
}

/// Each player along a chain of draws has the stats and name of the first.
pub proof fn lemma_chain_keeps_stats(chain: Seq<Player>, p0: Player, p1: Player, n: nat, i: int)
    requires
        crate::player::draw_chain(chain, p0, p1, n),
        0 <= i <= n,
    ensures
        chain[i].stat_manager == p0.stat_manager,
        chain[i].name == p0.name,
    decreases i,
{
    if i > 0 {
        lemma_chain_keeps_stats(chain, p0, p1, n, i - 1);
        assert(crate::player::drew_card(chain[i - 1], chain[(i - 1) + 1]));
    }
}

/// Drawing leaves a player's stats alone.
pub proof fn lemma_drew_cards_keeps_stats(p0: Player, p1: Player, n: nat)
    requires
        drew_cards(p0, p1, n),
    ensures
        p1.stat_manager == p0.stat_manager,
        p1.name == p0.name,
{
    let chain = choose|chain: Seq<Player>| #[trigger] crate::player::draw_chain(chain, p0, p1, n);
    lemma_chain_keeps_stats(chain, p0, p1, n, n as int);
}

} // verus!

//! The phases of a turn and how a turn moves through them.
use vstd::prelude::*;

verus! {

/// The twelve phases of a turn, in the order they are played.
#[derive(Debug, Clone, Copy, PartialEq, Eq, Structural)]
pub enum TurnPhase {
    Untap,
    Upkeep,
    Draw,
    Main,
    BeginningOfCombat,
    DeclareAttackers,
    DeclareBlockers,
    CombatDamage,
    EndOfCombat,
    Main2,
    End,
    Cleanup,
}

/// The position of a phase within a turn, from 0 (`Untap`) to 11 (`Cleanup`).
pub open spec fn phase_index(p: TurnPhase) -> nat {
    match p {
        TurnPhase::Untap => 0,
        TurnPhase::Upkeep => 1,
        TurnPhase::Draw => 2,
        TurnPhase::Main => 3,
        TurnPhase::BeginningOfCombat => 4,
        TurnPhase::DeclareAttackers => 5,
        TurnPhase::DeclareBlockers => 6,
        TurnPhase::CombatDamage => 7,
        TurnPhase::EndOfCombat => 8,
        TurnPhase::Main2 => 9,
        TurnPhase::End => 10,
        TurnPhase::Cleanup => 11,
    }
}

/// The phase at a position of the turn.
pub open spec fn phase_at(i: nat) -> TurnPhase {
    if i == 0 { TurnPhase::Untap }
    else if i == 1 { TurnPhase::Upkeep }
    else if i == 2 { TurnPhase::Draw }
    else if i == 3 { TurnPhase::Main }
    else if i == 4 { TurnPhase::BeginningOfCombat }
    else if i == 5 { TurnPhase::DeclareAttackers }
    else if i == 6 { TurnPhase::DeclareBlockers }
    else if i == 7 { TurnPhase::CombatDamage }
    else if i == 8 { TurnPhase::EndOfCombat }
    else if i == 9 { TurnPhase::Main2 }
    else if i == 10 { TurnPhase::End }
    else { TurnPhase::Cleanup }
}

/// The phase that follows `p`; after `Cleanup` the next turn starts at `Untap`.
pub open spec fn next_phase_of(p: TurnPhase) -> TurnPhase {
    phase_at((phase_index(p) + 1) % 12)
}

/// The phase reached from `p` after `n` steps.
pub open spec fn advance_phases(p: TurnPhase, n: nat) -> TurnPhase
    decreases n,
{
    if n == 0 { p } else { next_phase_of(advance_phases(p, (n - 1) as nat)) }
}

/// All phases in turn order.
pub open spec fn all_phases() -> Seq<TurnPhase> {
    seq![TurnPhase::Untap, TurnPhase::Upkeep, TurnPhase::Draw, TurnPhase::Main, TurnPhase::BeginningOfCombat,
        TurnPhase::DeclareAttackers, TurnPhase::DeclareBlockers, TurnPhase::CombatDamage, TurnPhase::EndOfCombat,
        TurnPhase::Main2, TurnPhase::End, TurnPhase::Cleanup]
}

/// All phases in turn order, as a vector.
pub fn all_phases_vec() -> (v: Vec<TurnPhase>)
    ensures
        v@ == all_phases(),
{
    let mut v: Vec<TurnPhase> = Vec::new();
    v.push(TurnPhase::Untap);
    v.push(TurnPhase::Upkeep);
    v.push(TurnPhase::Draw);
    v.push(TurnPhase::Main);
    v.push(TurnPhase::BeginningOfCombat);
    v.push(TurnPhase::DeclareAttackers);
    v.push(TurnPhase::DeclareBlockers);
    v.push(TurnPhase::CombatDamage);
    v.push(TurnPhase::EndOfCombat);
    v.push(TurnPhase::Main2);
    v.push(TurnPhase::End);
    v.push(TurnPhase::Cleanup);
    assert(v@ =~= all_phases());
    v
}

/// Whose turn it is, which phase it is in, and the turn number.
#[derive(Debug, Clone, Copy, PartialEq, Eq, Structural)]
pub struct Turn {
    pub current_player_index: i32,
    pub phase: TurnPhase,
    pub turn_number: i32,
}

impl Turn {
    /// A turn of the given player, starting in the `Untap` phase.
    pub fn new(current_player_index: usize, turn_number: usize) -> (t: Self)
        ensures
            t == (Turn {
                current_player_index: current_player_index as i32,
                phase: TurnPhase::Untap,
                turn_number: turn_number as i32,
            }),
    {
        Self {
            current_player_index: current_player_index as i32,
            phase: TurnPhase::Untap,
            turn_number: turn_number as i32,
        }
    }

    /// Moves to the next phase.
    pub fn next_phase(&mut self)
        ensures
            *final(self) == (Turn { phase: next_phase_of(old(self).phase), ..*old(self) }),
    {
        self.phase = match self.phase {
            TurnPhase::Untap => TurnPhase::Upkeep,
            TurnPhase::Upkeep => TurnPhase::Draw,
            TurnPhase::Draw => TurnPhase::Main,
            TurnPhase::Main => TurnPhase::BeginningOfCombat,
            TurnPhase::BeginningOfCombat => TurnPhase::DeclareAttackers,
            TurnPhase::DeclareAttackers => TurnPhase::DeclareBlockers,
            TurnPhase::DeclareBlockers => TurnPhase::CombatDamage,
            TurnPhase::CombatDamage => TurnPhase::EndOfCombat,
            TurnPhase::EndOfCombat => TurnPhase::Main2,
            TurnPhase::Main2 => TurnPhase::End,
            TurnPhase::End => TurnPhase::Cleanup,
            TurnPhase::Cleanup => TurnPhase::Untap,
        };
    }
}

/// Each step moves one position forward through the turn, wrapping after `Cleanup`.
pub proof fn lemma_advance_index(p: TurnPhase, n: nat)
    ensures
        phase_index(advance_phases(p, n)) == (phase_index(p) + n) % 12,
    decreases n,
{
    if n > 0 {
        lemma_advance_index(p, (n - 1) as nat);
    }
}

/// Twelve phase steps bring a turn back to the phase it started in.
pub proof fn law_twelve_phases_cycle(p: TurnPhase)
    ensures
        advance_phases(p, 12) == p,
{
    lemma_advance_index(p, 12);
    let q = advance_phases(p, 12);
    assert(phase_index(q) == phase_index(p));
}

/// Every phase is reached from `Untap`, once in each turn, at its own position.
pub proof fn law_phases_in_order(p: TurnPhase)
    ensures
        advance_phases(TurnPhase::Untap, phase_index(p)) == p,
        phase_at(phase_index(p)) == p,
{
    lemma_advance_index(TurnPhase::Untap, phase_index(p));
    let q = advance_phases(TurnPhase::Untap, phase_index(p));
    assert(phase_index(q) == phase_index(p));
}

} // verus!

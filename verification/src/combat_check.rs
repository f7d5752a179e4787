//! Whether a declared combat can be fought within the bounds of an `i16`:
//! the fight is followed on the side, damage by damage, without touching
//! the table.
use vstd::prelude::*;
use crate::combat::{
    Combat, attack_damage, attack_step, attacks_fold, block_step, blockers_of, blocks_fold, card_of, combat_outcome,
    combat_ready, damage_so_far, fighting, fits, hit_state, lemma_attacks_ok_prefix, lemma_blockers_ok_prefix,
    lemma_blocks_ok_prefix, power_of, saturating_sub, take_damage, toughness_of, tramples,
};
use crate::effects::EffectTarget;
use crate::player::Player;
use crate::stat::{StatType, Stats};
use crate::table::{find_card_in_play, first_in_play, in_play_at};

verus! {

/// The damage noted so far, each id under the last value pushed for it.
pub open spec fn damage_map(v: Seq<(String, i16)>) -> Map<Seq<char>, int>
    decreases v.len(),
{
    if v.len() == 0 {
        Map::empty()
    } else {
        damage_map(v.drop_last()).insert(v.last().0@, v.last().1 as int)
    }
}

/// The damage noted for `id`, if any.
fn noted(v: &Vec<(String, i16)>, id: &String) -> (r: Option<i16>)
    ensures
        match r {
            Some(d) => damage_map(v@).contains_key(id@) && damage_map(v@)[id@] == d as int,
            None => !damage_map(v@).contains_key(id@),
        },
{
    let mut i: usize = v.len();
    proof {
        assert(v@.subrange(0, v@.len() as int) =~= v@);
    }
    while i > 0
        invariant
            i <= v@.len(),
            damage_map(v@).contains_key(id@) == damage_map(v@.subrange(0, i as int)).contains_key(id@),
            damage_map(v@).contains_key(id@) ==> damage_map(v@)[id@] == damage_map(v@.subrange(0, i as int))[id@],
        decreases i,
    {
        let ghost s = v@.subrange(0, i as int);
        proof {
            assert(s.drop_last() =~= v@.subrange(0, i as int - 1));
        }
        if v[i - 1].0 == *id {
            return Some(v[i - 1].1);
        }
        i = i - 1;
    }
    proof {
        assert(v@.subrange(0, 0) =~= Seq::<(String, i16)>::empty());
    }
    None
}

/// The card in play that a fighting id names.
fn fighter<'a>(players: &'a Vec<Player>, id: &String) -> (c: &'a crate::card::Card)
    requires
        fighting(players@, id@),
    ensures
        *c == card_of(players@, id@),
{
    match find_card_in_play(players, id) {
        Some((pi, ci)) => {
            proof {
                crate::combat::lemma_card_of(players@, id@, pi as int, ci as int);
            }
            &players[pi].cards_in_play[ci]
        },
        None => {
            proof {
                let (pi, ci) = choose|pi: int, ci: int| first_in_play(players@, id@, pi, ci);
                assert(in_play_at(players@, id@, pi, ci));
            }
            &players[0].cards_in_play[0]
        },
    }
}

/// The damage `id` has taken so far, by the notes or else by its card.
fn so_far(v: &Vec<(String, i16)>, players: &Vec<Player>, id: &String) -> (d: i16)
    requires
        fighting(players@, id@),
    ensures
        d as int == damage_so_far((damage_map(v@), Map::empty(), Seq::empty(), Seq::empty(), true), players@, id@),
{
    match noted(v, id) {
        Some(d) => d,
        None => fighter(players, id).damage_taken,
    }
}

/// The combat's damage taken so far, as far as its `i16` fits: the first
/// part of a combat state.
pub open spec fn tracks(v: Seq<(String, i16)>, s: crate::combat::CombatState) -> bool {
    &&& damage_map(v) == s.0
    &&& s.4
}

/// `damage_so_far` reads only the damage taken.
proof fn lemma_so_far_reads_damage(s: crate::combat::CombatState, t: crate::combat::CombatState, players: Seq<Player>, id: Seq<char>)
    requires
        s.0 == t.0,
    ensures
        damage_so_far(s, players, id) == damage_so_far(t, players, id),
{
}

impl Combat {
    /// Whether the combat stays within the bounds of an `i16` from start to
    /// end: every damage taken, every sum of a blocked attacker's blockers'
    /// toughness, and every loss of health.
    pub fn fits_check(&self, players: &Vec<Player>) -> (b: bool)
        requires
            combat_ready(*self, players@),
        ensures
            b == combat_outcome(*self, players@).4,
    {
        let ghost p = players@;
        let mut v: Vec<(String, i16)> = Vec::new();
        proof {
            assert(damage_map(v@) =~= Map::<Seq<char>, int>::empty());
            assert(self.blockers@.subrange(0, 0) =~= Seq::<(String, String)>::empty());
        }
        let mut j: usize = 0;
        while j < self.blockers.len()
            invariant
                j <= self.blockers@.len(),
                combat_ready(*self, p),
                p == players@,
                tracks(v@, blocks_fold(self.blockers@.subrange(0, j as int), p)),
            decreases self.blockers@.len() - j,
        {
            let ghost st = blocks_fold(self.blockers@.subrange(0, j as int), p);
            proof {
                assert(self.blockers@.subrange(0, j as int + 1).drop_last() =~= self.blockers@.subrange(0, j as int));
                assert(self.blockers@.subrange(0, j as int + 1).last() == self.blockers@[j as int]);
            }
            let b = &self.blockers[j].0;
            let a = &self.blockers[j].1;
            assert(fighting(p, b@) && fighting(p, a@));
            let ghost s1 = take_damage(st, p, b@, power_of(p, a@), true);
            let ghost s2 = take_damage(s1, p, a@, power_of(p, b@), true);
            proof {
                lemma_so_far_reads_damage(st, (damage_map(v@), Map::empty(), Seq::empty(), Seq::empty(), true), p, b@);
            }
            let a_power = fighter(players, a).stats.get_stat_value(StatType::Power);
            let d1: i32 = so_far(&v, players, b) as i32 + a_power as i32;
            if d1 < -32768 || d1 > 32767 {
                proof {
                    assert(!s2.4);
                    assert(s2 == blocks_fold(self.blockers@.subrange(0, j as int + 1), p));
                    if blocks_fold(self.blockers@, p).4 {
                        lemma_blocks_ok_prefix(self.blockers@, p, j as int + 1);
                    }
                    lemma_attacks_prefix_fails(self.attackers@, self.blockers@, p);
                }
                return false;
            }
            let ghost v0 = v@;
            v.push((b.clone(), d1 as i16));
            proof {
                assert(v@.drop_last() =~= v0);
                assert(damage_map(v@) =~= s1.0);
                lemma_so_far_reads_damage(s1, (damage_map(v@), Map::empty(), Seq::empty(), Seq::empty(), true), p, a@);
            }
            let b_power = fighter(players, b).stats.get_stat_value(StatType::Power);
            let d2: i32 = so_far(&v, players, a) as i32 + b_power as i32;
            if d2 < -32768 || d2 > 32767 {
                proof {
                    assert(!s2.4);
                    assert(s2 == blocks_fold(self.blockers@.subrange(0, j as int + 1), p));
                    if blocks_fold(self.blockers@, p).4 {
                        lemma_blocks_ok_prefix(self.blockers@, p, j as int + 1);
                    }
                    lemma_attacks_prefix_fails(self.attackers@, self.blockers@, p);
                }
                return false;
            }
            let ghost v1 = v@;
            v.push((a.clone(), d2 as i16));
            proof {
                assert(v@.drop_last() =~= v1);
                assert(damage_map(v@) =~= s2.0);
                assert(s2 == blocks_fold(self.blockers@.subrange(0, j as int + 1), p));
            }
            j = j + 1;
        }
        proof {
            assert(self.blockers@.subrange(0, self.blockers@.len() as int) =~= self.blockers@);
            assert(self.attackers@.subrange(0, 0) =~= Seq::<(String, EffectTarget)>::empty());
        }
        let mut k: usize = 0;
        while k < self.attackers.len()
            invariant
                k <= self.attackers@.len(),
                combat_ready(*self, p),
                p == players@,
                tracks(v@, attacks_fold(self.attackers@.subrange(0, k as int), self.blockers@, p)),
            decreases self.attackers@.len() - k,
        {
            let ghost st = attacks_fold(self.attackers@.subrange(0, k as int), self.blockers@, p);
            proof {
                assert(self.attackers@.subrange(0, k as int + 1).drop_last() =~= self.attackers@.subrange(0, k as int));
                assert(self.attackers@.subrange(0, k as int + 1).last() == self.attackers@[k as int]);
            }
            let a = &self.attackers[k].0;
            let target = &self.attackers[k].1;
            assert(fighting(p, a@));
            let ghost s2 = attack_step(st, self.blockers@, p, a@, *target);
            proof {
                assert(s2 == attacks_fold(self.attackers@.subrange(0, k as int + 1), self.blockers@, p));
            }
            let (blocked, total, ok) = self.blockers_check(a, players);
            if !ok {
                proof {
                    assert(!s2.4);
                    if attacks_fold(self.attackers@, self.blockers@, p).4 {
                        lemma_attacks_ok_prefix(self.attackers@, self.blockers@, p, k as int + 1);
                    }
                }
                return false;
            }
            let a_card = fighter(players, a);
            let power = a_card.stats.get_stat_value(StatType::Power);
            let trample = a_card.stats.get_stat_value(StatType::Trample);
            let diff: i32 = power as i32 - total as i32;
            let sat: i32 = if diff < -32768 { -32768 } else if diff > 32767 { 32767 } else { diff };
            assert(sat == saturating_sub(power_of(p, a@), blockers_of(self.blockers@, p, a@).1));
            let x: Option<i32> = if !blocked {
                Some(power as i32)
            } else if trample > 0 && sat > 0 {
                Some(sat)
            } else {
                None
            };
            assert(x matches Some(y) ==> attack_damage(self.blockers@, p, a@) == Some(y as int));
            assert(x is None ==> attack_damage(self.blockers@, p, a@) is None);
            match x {
                None => {},
                Some(x) => match target {
                    EffectTarget::Player(_) => {
                        if -x < -32768 || -x > 32767 {
                            proof {
                                assert(!s2.4);
                                if attacks_fold(self.attackers@, self.blockers@, p).4 {
                                    lemma_attacks_ok_prefix(self.attackers@, self.blockers@, p, k as int + 1);
                                }
                            }
                            return false;
                        }
                    },
                    EffectTarget::Card(id) => {
                        assert(fighting(p, id@));
                        proof {
                            lemma_so_far_reads_damage(st, (damage_map(v@), Map::empty(), Seq::empty(), Seq::empty(), true), p, id@);
                        }
                        let d: i32 = so_far(&v, players, id) as i32 + x;
                        if d < -32768 || d > 32767 {
                            proof {
                                assert(!s2.4);
                                if attacks_fold(self.attackers@, self.blockers@, p).4 {
                                    lemma_attacks_ok_prefix(self.attackers@, self.blockers@, p, k as int + 1);
                                }
                            }
                            return false;
                        }
                        let ghost v0 = v@;
                        v.push((id.clone(), d as i16));
                        proof {
                            assert(v@.drop_last() =~= v0);
                            assert(damage_map(v@) =~= s2.0);
                        }
                    },
                },
            }
            k = k + 1;
        }
        proof {
            assert(self.attackers@.subrange(0, self.attackers@.len() as int) =~= self.attackers@);
        }
        true
    }

    /// Whether the attacker is blocked, the sum of its blockers' toughness,
    /// and whether every partial sum fit an `i16`.
    fn blockers_check(&self, attacker: &String, players: &Vec<Player>) -> (r: (bool, i16, bool))
        requires
            combat_ready(*self, players@),
        ensures
            r.2 == blockers_of(self.blockers@, players@, attacker@).2,
            r.2 ==> r.0 == blockers_of(self.blockers@, players@, attacker@).0
                && r.1 == blockers_of(self.blockers@, players@, attacker@).1,
    {
        let ghost p = players@;
        let mut is_blocked = false;
        let mut total: i16 = 0;
        let mut m: usize = 0;
        proof {
            assert(self.blockers@.subrange(0, 0) =~= Seq::<(String, String)>::empty());
        }
        while m < self.blockers.len()
            invariant
                m <= self.blockers@.len(),
                combat_ready(*self, p),
                p == players@,
                blockers_of(self.blockers@.subrange(0, m as int), p, attacker@).2,
                is_blocked == blockers_of(self.blockers@.subrange(0, m as int), p, attacker@).0,
                total == blockers_of(self.blockers@.subrange(0, m as int), p, attacker@).1,
            decreases self.blockers@.len() - m,
        {
            proof {
                assert(self.blockers@.subrange(0, m as int + 1).drop_last() =~= self.blockers@.subrange(0, m as int));
                assert(self.blockers@.subrange(0, m as int + 1).last() == self.blockers@[m as int]);
            }
            if self.blockers[m].1 == *attacker {
                let b = &self.blockers[m].0;
                assert(fighting(p, b@));
                let t = fighter(players, b).stats.get_stat_value(StatType::Toughness);
                let sum: i32 = total as i32 + t as i32;
                if sum < -32768 || sum > 32767 {
                    proof {
                        assert(!blockers_of(self.blockers@.subrange(0, m as int + 1), p, attacker@).2);
                        if blockers_of(self.blockers@, p, attacker@).2 {
                            lemma_blockers_ok_prefix(self.blockers@, p, attacker@, m as int + 1);
                        }
                    }
                    return (is_blocked, total, false);
                }
                is_blocked = true;
                total = sum as i16;
            }
            m = m + 1;
        }
        proof {
            assert(self.blockers@.subrange(0, self.blockers@.len() as int) =~= self.blockers@);
        }
        (is_blocked, total, true)
    }
}

/// Where the blocks already leave the bounds of an `i16`, so does the whole
/// combat.
proof fn lemma_attacks_prefix_fails(attacks: Seq<(String, EffectTarget)>, blocks: Seq<(String, String)>, players: Seq<Player>)
    requires
        !blocks_fold(blocks, players).4,
    ensures
        !attacks_fold(attacks, blocks, players).4,
{
    if attacks_fold(attacks, blocks, players).4 {
        lemma_attacks_ok_prefix(attacks, blocks, players, 0);
    }
}

} // verus!

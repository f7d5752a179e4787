//! What every player of a lobby is shown of the game: the turn, who holds
//! priority, and the attacks and blocks declared.
use vstd::prelude::*;
use crate::effects::EffectTarget;
use crate::game::{Attack, Block, FrontendCardTarget, FrontendPileName, FrontendTarget, Game, PriorityQueue, holds_card, locates};
use crate::lobby::{Lobby, PublicGameInfo};
use crate::player::Player;
use crate::card::Card;
use crate::removal::located;

verus! {

/// The places, in order, of the attackers whose card carries the id.
pub open spec fn matching(att: Seq<(String, EffectTarget)>, id: Seq<char>) -> Seq<int>
    decreases att.len(),
{
    if att.len() == 0 {
        Seq::empty()
    } else {
        let rest = matching(att.drop_last(), id);
        if att.last().0@ == id { rest.push(att.len() - 1) } else { rest }
    }
}

/// For each card of the battlefield, card by card, the declared attacks it
/// makes: the card's place and the attack's place.
pub open spec fn attack_pairs(cards: Seq<Card>, att: Seq<(String, EffectTarget)>) -> Seq<(int, int)>
    decreases cards.len(),
{
    if cards.len() == 0 {
        Seq::empty()
    } else {
        attack_pairs(cards.drop_last(), att)
            + matching(att, cards.last().id@).map_values(|j: int| (cards.len() - 1, j))
    }
}

/// The client's view of what an attack aims at: a player by name, or a card
/// by where it lies.
pub open spec fn shown_target(players: Seq<Player>, e: EffectTarget, t: FrontendTarget) -> bool {
    match (e, t) {
        (EffectTarget::Player(n), FrontendTarget::Player(m)) => m@ == n@,
        (EffectTarget::Card(id), FrontendTarget::Card(ct)) => locates(players, id@, ct),
        _ => false,
    }
}

/// `v` shows the attacks of the cards of seat `pi` as `pairs` lists them.
pub open spec fn attacks_shown(v: Seq<Attack>, pairs: Seq<(int, int)>, g: Game, pi: int) -> bool {
    &&& v.len() == pairs.len()
    &&& forall|k: int| 0 <= k < v.len() ==> {
        &&& (#[trigger] v[k]).attacker.player_id@ == g.players@[pi].name@
        &&& v[k].attacker.pile == FrontendPileName::Play
        &&& v[k].attacker.card_index == pairs[k].0
        &&& shown_target(g.players@, g.combat.attackers@[pairs[k].1].1, v[k].target)
    }
}

/// What the lobby shows of the game's combat can be found on the table:
/// every blocker and blocked attacker, and every card attacked, lies somewhere.
pub open spec fn combat_shown_ok(g: Game) -> bool {
    &&& forall|j: int| 0 <= j < g.combat.blockers@.len() ==>
        located(g.players@, (#[trigger] g.combat.blockers@[j]).0@) && located(g.players@, g.combat.blockers@[j].1@)
    &&& forall|j: int| 0 <= j < g.combat.attackers@.len() ==>
        ((#[trigger] g.combat.attackers@[j]).1 matches EffectTarget::Card(id) ==> located(g.players@, id@))
}

/// The place of a card that lies somewhere on the table.
fn place_of(g: &Game, id: &String) -> (t: FrontendCardTarget)
    requires
        located(g.players@, id@),
    ensures
        locates(g.players@, id@, t),
{
    match g.locate_card(id) {
        Some(t) => t,
        None => {
            proof {
                let pi = choose|pi: int| 0 <= pi < g.players@.len() && #[trigger] holds_card(g.players@[pi], id@);
                assert(holds_card(g.players@[pi], id@));
            }
            FrontendCardTarget { player_id: String::new(), pile: FrontendPileName::Hand, card_index: 0 }
        },
    }
}

/// What every player is shown of the game `g`: the turn; who holds priority
/// and for how long; each declared block, its attacker and blocker by where
/// they lie; and the attacks of the current player's cards, card by card,
/// each attacker by its place on the battlefield.
pub open spec fn game_shown(g: Game, info: PublicGameInfo) -> bool {
    &&& info.current_turn == g.current_turn
    &&& match g.current_priority_player {
        Some((seat, time_left, _)) => info.priority_queue matches Some(q)
            && q.player_id@ == g.players@[seat as int].name@ && q.time_left == time_left,
        None => info.priority_queue is None,
    }
    &&& info.blocks@.len() == g.combat.blockers@.len()
    &&& forall|j: int| 0 <= j < info.blocks@.len() ==> {
        &&& locates(g.players@, g.combat.blockers@[j].1@, (#[trigger] info.blocks@[j]).attacker)
        &&& locates(g.players@, g.combat.blockers@[j].0@, info.blocks@[j].blocker)
    }
    &&& match g.current_turn {
        Some(t) => attacks_shown(info.attacks@,
            attack_pairs(g.players@[t.current_player_index as int].cards_in_play@, g.combat.attackers@),
            g, t.current_player_index as int),
        None => info.attacks@.len() == 0,
    }
}

/// What `get_state` asks of a game.
pub open spec fn state_showable(g: Game) -> bool {
    &&& combat_shown_ok(g)
    &&& g.current_priority_player matches Some(p) ==> p.0 < g.players@.len()
    &&& g.current_turn matches Some(t) ==> 0 <= t.current_player_index < g.players@.len()
        && g.players@[t.current_player_index as int].cards_in_play@.len() <= i32::MAX
}

impl Lobby {
    /// What every player is shown of the game: the turn; who holds priority
    /// and for how long; each declared block, its attacker and blocker by
    /// where they lie; and the attacks of the current player's cards, card by
    /// card, each attacker by its place on the battlefield.
    pub fn get_state(&self) -> (info: PublicGameInfo)
        requires
            state_showable(self.game),
        ensures
            game_shown(self.game, info),
    {
        let g = &self.game;
        let priority_queue = match g.current_priority_player {
            Some((seat, time_left, _)) => Some(PriorityQueue { player_id: g.players[seat].name.clone(), time_left }),
            None => None,
        };
        let mut blocks: Vec<Block> = Vec::new();
        let mut j: usize = 0;
        while j < g.combat.blockers.len()
            invariant
                combat_shown_ok(*g),
                j <= g.combat.blockers@.len(),
                blocks@.len() == j,
                forall|i: int| 0 <= i < j ==> {
                    &&& locates(g.players@, g.combat.blockers@[i].1@, (#[trigger] blocks@[i]).attacker)
                    &&& locates(g.players@, g.combat.blockers@[i].0@, blocks@[i].blocker)
                },
            decreases g.combat.blockers@.len() - j,
        {
            proof {
                assert(located(g.players@, g.combat.blockers@[j as int].0@) && located(g.players@, g.combat.blockers@[j as int].1@));
            }
            let attacker = place_of(g, &g.combat.blockers[j].1);
            let blocker = place_of(g, &g.combat.blockers[j].0);
            blocks.push(Block { attacker, blocker });
            j = j + 1;
        }
        let mut attacks: Vec<Attack> = Vec::new();
        match g.current_turn {
            Some(turn) => {
                let pi = turn.current_player_index as usize;
                let player_id = &g.players[pi].name;
                let cards = &g.players[pi].cards_in_play;
                let att = &g.combat.attackers;
                let mut ci: usize = 0;
                while ci < cards.len()
                    invariant
                        combat_shown_ok(*g),
                        pi < g.players@.len(),
                        *player_id == g.players@[pi as int].name,
                        cards@ == g.players@[pi as int].cards_in_play@,
                        cards@.len() <= i32::MAX,
                        att@ == g.combat.attackers@,
                        ci <= cards@.len(),
                        attacks_shown(attacks@, attack_pairs(cards@.subrange(0, ci as int), att@), *g, pi as int),
                    decreases cards@.len() - ci,
                {
                    let ghost before_pairs = attack_pairs(cards@.subrange(0, ci as int), att@);
                    proof {
                        assert(cards@.subrange(0, ci as int + 1).drop_last() =~= cards@.subrange(0, ci as int));
                    }
                    let card_id = &cards[ci].id;
                    let mut a: usize = 0;
                    while a < att.len()
                        invariant
                            combat_shown_ok(*g),
                            pi < g.players@.len(),
                            *player_id == g.players@[pi as int].name,
                            att@ == g.combat.attackers@,
                            ci < cards@.len(),
                            cards@.len() <= i32::MAX,
                            *card_id == cards@[ci as int].id,
                            a <= att@.len(),
                            attacks_shown(attacks@, before_pairs + matching(att@.subrange(0, a as int), card_id@).map_values(|j: int| (ci as int, j)), *g, pi as int),
                        decreases att@.len() - a,
                    {
                        let ghost pairs0 = before_pairs + matching(att@.subrange(0, a as int), card_id@).map_values(|j: int| (ci as int, j));
                        proof {
                            assert(att@.subrange(0, a as int + 1).drop_last() =~= att@.subrange(0, a as int));
                        }
                        if att[a].0 == *card_id {
                            let target = match &att[a].1 {
                                EffectTarget::Player(n) => FrontendTarget::Player(n.clone()),
                                EffectTarget::Card(id) => {
                                    proof {
                                        assert(located(g.players@, id@));
                                    }
                                    FrontendTarget::Card(place_of(g, id))
                                },
                            };
                            let ghost before = attacks@;
                            attacks.push(Attack {
                                attacker: FrontendCardTarget { player_id: player_id.clone(), pile: FrontendPileName::Play, card_index: ci as i32 },
                                target,
                            });
                            proof {
                                let pairs1 = before_pairs + matching(att@.subrange(0, a as int + 1), card_id@).map_values(|j: int| (ci as int, j));
                                assert(pairs1 =~= pairs0.push((ci as int, a as int)));
                                assert forall|k: int| 0 <= k < attacks@.len() implies {
                                    &&& (#[trigger] attacks@[k]).attacker.player_id@ == g.players@[pi as int].name@
                                    &&& attacks@[k].attacker.pile == FrontendPileName::Play
                                    &&& attacks@[k].attacker.card_index == pairs1[k].0
                                    &&& shown_target(g.players@, g.combat.attackers@[pairs1[k].1].1, attacks@[k].target)
                                } by {
                                    if k < before.len() {
                                        assert(attacks@[k] == before[k]);
                                        assert(pairs1[k] == pairs0[k]);
                                    } else {
                                        assert(pairs1[k] == (ci as int, a as int));
                                        assert(attacks@[k].attacker.card_index == ci as i32);
                                        assert(shown_target(g.players@, att@[a as int].1, attacks@[k].target));
                                    }
                                }
                            }
                        } else {
                            proof {
                                assert(before_pairs + matching(att@.subrange(0, a as int + 1), card_id@).map_values(|j: int| (ci as int, j)) =~= pairs0);
                            }
                        }
                        a = a + 1;
                    }
                    proof {
                        assert(att@.subrange(0, att@.len() as int) =~= att@);
                        assert(attack_pairs(cards@.subrange(0, ci as int + 1), att@)
                            =~= before_pairs + matching(att@, card_id@).map_values(|j: int| (ci as int, j)));
                    }
                    ci = ci + 1;
                }
                proof {
                    assert(cards@.subrange(0, cards@.len() as int) =~= cards@);
                }
            },
            None => {},
        }
        PublicGameInfo { current_turn: g.current_turn, priority_queue, attacks, blocks }
    }
}

} // verus!

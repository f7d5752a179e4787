//! The players around the table, and how a card in play or a player is found
//! and changed in place.
use vstd::prelude::*;
use crate::card::Card;
use crate::player::Player;

verus! {

/// The card at position `ci` of player `pi`'s battlefield carries the given id.
pub open spec fn in_play_at(players: Seq<Player>, id: Seq<char>, pi: int, ci: int) -> bool {
    0 <= pi < players.len() && 0 <= ci < players[pi].cards_in_play@.len()
        && players[pi].cards_in_play@[ci].id@ == id
}

/// No card in play carries the given id.
pub open spec fn nowhere_in_play(players: Seq<Player>, id: Seq<char>) -> bool {
    forall|pi: int, ci: int| !#[trigger] in_play_at(players, id, pi, ci)
}

/// Position `(pi, ci)` comes before `(pj, cj)`, players first.
pub open spec fn before(pi: int, ci: int, pj: int, cj: int) -> bool {
    pi < pj || (pi == pj && ci < cj)
}

/// `(pi, ci)` is the first position, players first, of a card in play with the id.
pub open spec fn first_in_play(players: Seq<Player>, id: Seq<char>, pi: int, ci: int) -> bool {
    &&& in_play_at(players, id, pi, ci)
    &&& forall|pj: int, cj: int| before(pj, cj, pi, ci) ==> !#[trigger] in_play_at(players, id, pj, cj)
}

/// The position of the first player with the given name.
pub open spec fn first_named(players: Seq<Player>, name: Seq<char>, pi: int) -> bool {
    &&& 0 <= pi < players.len()
    &&& players[pi].name@ == name
    &&& forall|j: int| 0 <= j < pi ==> (#[trigger] players[j]).name@ != name
}

/// `new` is `old` with the card at `(pi, ci)` replaced by `c`.
pub open spec fn card_replaced(old: Seq<Player>, new: Seq<Player>, pi: int, ci: int, c: Card) -> bool {
    &&& new.len() == old.len()
    &&& forall|j: int| 0 <= j < old.len() && j != pi ==> #[trigger] new[j] == old[j]
    &&& new[pi] == (Player { cards_in_play: new[pi].cards_in_play, ..old[pi] })
    &&& new[pi].cards_in_play@ == old[pi].cards_in_play@.update(ci, c)
}

/// Where some player carries the name, a first such player exists.
pub proof fn lemma_first_named_exists(players: Seq<Player>, name: Seq<char>, j: int)
    requires
        0 <= j < players.len(),
        players[j].name@ == name,
    ensures
        exists|pi: int| first_named(players, name, pi),
    decreases j,
{
    if forall|k: int| 0 <= k < j ==> (#[trigger] players[k]).name@ != name {
        assert(first_named(players, name, j));
    } else {
        let k = choose|k: int| 0 <= k < j && (#[trigger] players[k]).name@ == name;
        lemma_first_named_exists(players, name, k);
    }
}

/// Where some card in play carries the id, a first such card exists.
pub proof fn lemma_first_in_play_exists(players: Seq<Player>, id: Seq<char>, pi: int, ci: int)
    requires
        in_play_at(players, id, pi, ci),
    ensures
        exists|pj: int, cj: int| first_in_play(players, id, pj, cj),
    decreases pi, ci,
{
    if forall|pj: int, cj: int| before(pj, cj, pi, ci) ==> !#[trigger] in_play_at(players, id, pj, cj) {
        assert(first_in_play(players, id, pi, ci));
    } else {
        let (pj, cj) = choose|pj: int, cj: int| before(pj, cj, pi, ci) && #[trigger] in_play_at(players, id, pj, cj);
        lemma_first_in_play_exists(players, id, pj, cj);
    }
}

/// Where the first player with the given name sits.
pub fn find_player(players: &Vec<Player>, name: &String) -> (r: Option<usize>)
    ensures
        match r {
            Some(pi) => first_named(players@, name@, pi as int),
            None => forall|j: int| 0 <= j < players@.len() ==> (#[trigger] players@[j]).name@ != name@,
        },
{
    let mut i: usize = 0;
    while i < players.len()
        invariant
            i <= players@.len(),
            forall|j: int| 0 <= j < i ==> (#[trigger] players@[j]).name@ != name@,
        decreases players@.len() - i,
    {
        if players[i].name == *name {
            return Some(i);
        }
        i = i + 1;
    }
    None
}

/// Where the first card in play with the given id lies.
pub fn find_card_in_play(players: &Vec<Player>, id: &String) -> (r: Option<(usize, usize)>)
    ensures
        match r {
            Some((pi, ci)) => first_in_play(players@, id@, pi as int, ci as int),
            None => nowhere_in_play(players@, id@),
        },
{
    let mut i: usize = 0;
    while i < players.len()
        invariant
            i <= players@.len(),
            forall|pj: int, cj: int| 0 <= pj < i ==> !#[trigger] in_play_at(players@, id@, pj, cj),
        decreases players@.len() - i,
    {
        let mut c: usize = 0;
        while c < players[i].cards_in_play.len()
            invariant
                i < players@.len(),
                c <= players@[i as int].cards_in_play@.len(),
                forall|pj: int, cj: int| 0 <= pj < i ==> !#[trigger] in_play_at(players@, id@, pj, cj),
                forall|cj: int| 0 <= cj < c ==> !#[trigger] in_play_at(players@, id@, i as int, cj),
            decreases players@[i as int].cards_in_play@.len() - c,
        {
            if players[i].cards_in_play[c].id == *id {
                return Some((i, c));
            }
            c = c + 1;
        }
        i = i + 1;
    }
    None
}

/// Replaces the card at `(pi, ci)` by what `f` makes of it.
pub fn update_card_in_play<F: FnOnce(Card) -> Card>(players: &mut Vec<Player>, pi: usize, ci: usize, f: F)
    requires
        pi < old(players)@.len(),
        ci < old(players)@[pi as int].cards_in_play@.len(),
        call_requires(f, (old(players)@[pi as int].cards_in_play@[ci as int],)),
    ensures
        exists|c: Card| call_ensures(f, (old(players)@[pi as int].cards_in_play@[ci as int],), c)
            && card_replaced(old(players)@, final(players)@, pi as int, ci as int, c),
{
    let ghost p0 = old(players)@[pi as int];
    let mut p = players.remove(pi);
    assert(p == p0);
    let card = p.cards_in_play.remove(ci);
    assert(card == p0.cards_in_play@[ci as int]);
    let new_card = f(card);
    p.cards_in_play.insert(ci, new_card);
    assert(p == (Player { cards_in_play: p.cards_in_play, ..p0 }));
    players.insert(pi, p);
    proof {
        assert(players@[pi as int] == p);
        assert(players@[pi as int].cards_in_play@ =~= old(players)@[pi as int].cards_in_play@.update(ci as int, new_card));
        assert forall|j: int| 0 <= j < old(players)@.len() && j != pi implies #[trigger] players@[j] == old(players)@[j] by {
            if j < pi {
                assert(players@[j] == old(players)@[j]);
            } else {
                assert(players@[j] == old(players)@[j]);
            }
        }
        assert(card_replaced(old(players)@, players@, pi as int, ci as int, new_card));
        assert(call_ensures(f, (old(players)@[pi as int].cards_in_play@[ci as int],), new_card));
    }
}

/// Replaces the player at `pi` by what `f` makes of it.
pub fn update_player<F: FnOnce(Player) -> Player>(players: &mut Vec<Player>, pi: usize, f: F)
    requires
        pi < old(players)@.len(),
        call_requires(f, (old(players)@[pi as int],)),
    ensures
        exists|p: Player| call_ensures(f, (old(players)@[pi as int],), p)
            && final(players)@ == old(players)@.update(pi as int, p),
{
    let p = players.remove(pi);
    let q = f(p);
    players.insert(pi, q);
    proof {
        assert(players@ =~= old(players)@.update(pi as int, q));
    }
}

} // verus!

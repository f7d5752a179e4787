//! What a deck is made of: its cards grouped by name, each name once with the
//! number of copies, the most numerous first and equal counts by name.
use vstd::prelude::*;
use crate::card::{Card, same_card};
use crate::decks::selected;
use crate::deck::Deck;
use crate::lobby::{CardWithCount, CardWithDetails, DeckDetails, DeckSelector, Lobby, shown_outside};

verus! {

/// `a` sorts before `b` as Rust orders strings: at the first place they
/// differ `a` has the smaller character, or `a` is a proper prefix of `b`.
pub open spec fn str_less(a: Seq<char>, b: Seq<char>) -> bool
    decreases a.len(),
{
    if b.len() == 0 {
        false
    } else if a.len() == 0 {
        true
    } else if a[0] != b[0] {
        (a[0] as int) < (b[0] as int)
    } else {
        str_less(a.drop_first(), b.drop_first())
    }
}

/// No string sorts before itself, and of two, at most one sorts first.
pub proof fn lemma_str_less_asym(a: Seq<char>, b: Seq<char>)
    ensures
        !(str_less(a, b) && str_less(b, a)),
        !str_less(a, a),
    decreases a.len(),
{
    if a.len() > 0 && b.len() > 0 && a[0] == b[0] {
        lemma_str_less_asym(a.drop_first(), b.drop_first());
    }
    if a.len() > 0 {
        lemma_str_less_asym(a.drop_first(), a.drop_first());
    }
}

/// Of two different strings one sorts first.
pub proof fn lemma_str_less_total(a: Seq<char>, b: Seq<char>)
    requires
        a != b,
    ensures
        str_less(a, b) || str_less(b, a),
    decreases a.len(),
{
    if a.len() > 0 && b.len() > 0 && a[0] == b[0] {
        if a.drop_first() == b.drop_first() {
            assert(a =~= seq![a[0]] + a.drop_first());
            assert(b =~= seq![b[0]] + b.drop_first());
        }
        lemma_str_less_total(a.drop_first(), b.drop_first());
    } else if a.len() == 0 && b.len() == 0 {
        assert(a =~= b);
    } else if a.len() > 0 && b.len() > 0 {
        assert(a[0] as int != b[0] as int);
    }
}

/// Sorting first carries over.
pub proof fn lemma_str_less_trans(a: Seq<char>, b: Seq<char>, c: Seq<char>)
    requires
        str_less(a, b),
        str_less(b, c),
    ensures
        str_less(a, c),
    decreases a.len(),
{
    if a.len() > 0 && a[0] == b[0] && b[0] == c[0] {
        lemma_str_less_trans(a.drop_first(), b.drop_first(), c.drop_first());
    }
}

/// Whether `a` sorts before `b` as Rust orders strings.
fn str_before(a: &String, b: &String) -> (r: bool)
    ensures
        r == str_less(a@, b@),
{
    let la = a.as_str().unicode_len();
    let lb = b.as_str().unicode_len();
    let mut i: usize = 0;
    proof {
        assert(a@.skip(0) =~= a@);
        assert(b@.skip(0) =~= b@);
    }
    while i < la && i < lb
        invariant
            la == a@.len(),
            lb == b@.len(),
            i <= la,
            i <= lb,
            str_less(a@, b@) == str_less(a@.skip(i as int), b@.skip(i as int)),
        decreases la - i,
    {
        let ca = a.as_str().get_char(i);
        let cb = b.as_str().get_char(i);
        proof {
            assert(a@.skip(i as int)[0] == ca);
            assert(b@.skip(i as int)[0] == cb);
            assert(a@.skip(i as int).drop_first() =~= a@.skip(i as int + 1));
            assert(b@.skip(i as int).drop_first() =~= b@.skip(i as int + 1));
        }
        if ca != cb {
            return ca < cb;
        }
        i = i + 1;
    }
    i < lb
}

/// How many of the cards carry the name.
pub open spec fn name_count(cards: Seq<Card>, name: Seq<char>) -> nat
    decreases cards.len(),
{
    if cards.len() == 0 {
        0
    } else {
        name_count(cards.drop_last(), name) + if cards.last().name@ == name { 1nat } else { 0nat }
    }
}

/// Where the first card with the name lies; `-1` when none has it.
pub open spec fn first_named_index(cards: Seq<Card>, name: Seq<char>) -> int
    decreases cards.len(),
{
    if cards.len() == 0 {
        -1
    } else {
        let r = first_named_index(cards.drop_last(), name);
        if r >= 0 { r } else if cards.last().name@ == name { cards.len() - 1 } else { -1 }
    }
}

/// The first card with a name lies among the cards and has the name; a
/// name none of the cards has is found nowhere.
pub proof fn lemma_first_named_index(cards: Seq<Card>, name: Seq<char>)
    ensures
        -1 <= first_named_index(cards, name) < cards.len(),
        first_named_index(cards, name) >= 0 ==> cards[first_named_index(cards, name)].name@ == name,
        first_named_index(cards, name) < 0 ==> forall|i: int| 0 <= i < cards.len() ==> (#[trigger] cards[i]).name@ != name,
    decreases cards.len(),
{
    if cards.len() > 0 {
        let p = cards.drop_last();
        lemma_first_named_index(p, name);
        assert forall|i: int| 0 <= i < p.len() implies (#[trigger] cards[i]) == p[i] by {}
    }
}

/// An entry with count `cx` and name `nx` is listed before one with count
/// `cy` and name `ny`: more copies first, equal counts by name.
pub open spec fn listed_before(cx: int, nx: Seq<char>, cy: int, ny: Seq<char>) -> bool {
    cx > cy || (cx == cy && str_less(nx, ny))
}

/// The entry shows the first card of that name, placed nowhere, with the
/// number of cards of that name.
pub open spec fn entry_of(cards: Seq<Card>, d: CardWithDetails, count: int) -> bool {
    let n = d.card.name@;
    &&& first_named_index(cards, n) >= 0
    &&& count == name_count(cards, n)
    &&& shown_outside(d, d.card)
    &&& same_card(d.card, cards[first_named_index(cards, n)])
}

/// `d` lists the cards by name: every name of the cards, and no other, with
/// its first card and its count, the most numerous first and equal counts by
/// name.
pub open spec fn deck_listed(cards: Seq<Card>, d: Seq<CardWithCount>) -> bool {
    &&& forall|k: int| 0 <= k < d.len() ==> entry_of(cards, (#[trigger] d[k]).card, d[k].count as int)
    &&& forall|i: int| 0 <= i < cards.len() ==> exists|k: int| 0 <= k < d.len() && (#[trigger] d[k]).card.card.name@ == (#[trigger] cards[i]).name@
    &&& forall|j: int, k: int| 0 <= j < k < d.len() ==>
        listed_before((#[trigger] d[j]).count as int, d[j].card.card.name@, (#[trigger] d[k]).count as int, d[k].card.card.name@)
}

/// Counting over one more card.
proof fn lemma_name_count_push(cards: Seq<Card>, c: Card, name: Seq<char>)
    ensures
        name_count(cards.push(c), name) == name_count(cards, name) + if c.name@ == name { 1nat } else { 0nat },
{
    assert(cards.push(c).drop_last() =~= cards);
}

/// A name no card carries is counted zero times.
proof fn lemma_name_count_zero(cards: Seq<Card>, name: Seq<char>)
    requires
        forall|i: int| 0 <= i < cards.len() ==> cards[i].name@ != name,
    ensures
        name_count(cards, name) == 0,
    decreases cards.len(),
{
    if cards.len() > 0 {
        lemma_name_count_zero(cards.drop_last(), name);
    }
}

/// Where a name first occurs does not change when one more card comes,
/// unless the name is new and the card carries it.
proof fn lemma_first_named_push(cards: Seq<Card>, c: Card, name: Seq<char>)
    ensures
        first_named_index(cards.push(c), name) == if first_named_index(cards, name) >= 0 {
            first_named_index(cards, name)
        } else if c.name@ == name {
            cards.len() as int
        } else {
            -1
        },
{
    assert(cards.push(c).drop_last() =~= cards);
}

/// The entries are sorted as `listed_before` says, pair by pair.
pub open spec fn entries_sorted(es: Seq<(CardWithDetails, usize)>) -> bool {
    forall|j: int, k: int| 0 <= j < k < es.len() ==>
        listed_before((#[trigger] es[j]).1 as int, es[j].0.card.name@, (#[trigger] es[k]).1 as int, es[k].0.card.name@)
}

/// `es` groups the cards by name: each entry shows the first card of its
/// name with the count of that name, every name of the cards has an entry,
/// and no name has two.
pub open spec fn grouped(cards: Seq<Card>, es: Seq<(CardWithDetails, usize)>) -> bool {
    &&& forall|k: int| 0 <= k < es.len() ==> entry_of(cards, (#[trigger] es[k]).0, es[k].1 as int)
    &&& forall|i: int| 0 <= i < cards.len() ==> exists|k: int| 0 <= k < es.len() && (#[trigger] es[k]).0.card.name@ == (#[trigger] cards[i]).name@
    &&& forall|j: int, k: int| 0 <= j < k < es.len() ==> (#[trigger] es[j]).0.card.name@ != (#[trigger] es[k]).0.card.name@
}

/// An entry for a name already among the cards keeps showing its first card
/// when one more card comes.
proof fn lemma_entry_keeps(pre: Seq<Card>, c: Card, d: CardWithDetails, count: int)
    requires
        entry_of(pre, d, count),
        d.card.name@ != c.name@,
    ensures
        entry_of(pre.push(c), d, count),
{
    let nx = d.card.name@;
    lemma_name_count_push(pre, c, nx);
    lemma_first_named_push(pre, c, nx);
    lemma_first_named_index(pre, nx);
    assert(pre.push(c)[first_named_index(pre, nx)] == pre[first_named_index(pre, nx)]);
}

/// One more card of a name that has an entry counts once more there.
proof fn lemma_group_bump(pre: Seq<Card>, c: Card, es0: Seq<(CardWithDetails, usize)>, f: int, n: usize)
    requires
        grouped(pre, es0),
        0 <= f < es0.len(),
        es0[f].0.card.name@ == c.name@,
        n == es0[f].1 + 1,
    ensures
        grouped(pre.push(c), es0.update(f, (es0[f].0, n))),
{
    let next = pre.push(c);
    let es = es0.update(f, (es0[f].0, n));
    assert forall|x: int| 0 <= x < es.len() implies entry_of(next, (#[trigger] es[x]).0, es[x].1 as int) by {
        if x == f {
            let nx = c.name@;
            lemma_name_count_push(pre, c, nx);
            lemma_first_named_push(pre, c, nx);
            lemma_first_named_index(pre, nx);
            assert(next[first_named_index(pre, nx)] == pre[first_named_index(pre, nx)]);
        } else {
            assert(es0[x].0.card.name@ != es0[f].0.card.name@);
            lemma_entry_keeps(pre, c, es0[x].0, es0[x].1 as int);
        }
    }
    assert forall|i: int| 0 <= i < next.len() implies exists|k: int| 0 <= k < es.len() && (#[trigger] es[k]).0.card.name@ == (#[trigger] next[i]).name@ by {
        if i < pre.len() {
            assert(next[i] == pre[i]);
            let k = choose|k: int| 0 <= k < es0.len() && (#[trigger] es0[k]).0.card.name@ == pre[i].name@;
            assert(es[k].0 == es0[k].0);
        } else {
            assert(es[f].0.card.name@ == next[i].name@);
        }
    }
    assert forall|a: int, b: int| 0 <= a < b < es.len() implies (#[trigger] es[a]).0.card.name@ != (#[trigger] es[b]).0.card.name@ by {
        assert(es[a].0 == es0[a].0);
        assert(es[b].0 == es0[b].0);
    }
}

/// A card of a new name gets an entry of its own, counted once.
proof fn lemma_group_new(pre: Seq<Card>, c: Card, es0: Seq<(CardWithDetails, usize)>, d: CardWithDetails)
    requires
        grouped(pre, es0),
        forall|x: int| 0 <= x < es0.len() ==> (#[trigger] es0[x]).0.card.name@ != c.name@,
        shown_outside(d, d.card),
        same_card(d.card, c),
    ensures
        grouped(pre.push(c), es0.push((d, 1usize))),
{
    let next = pre.push(c);
    let es = es0.push((d, 1usize));
    let nx = c.name@;
    assert(d.card.name@ == nx);
    assert forall|w: int| 0 <= w < pre.len() implies pre[w].name@ != nx by {
        if pre[w].name@ == nx {
            let kk = choose|kk: int| 0 <= kk < es0.len() && (#[trigger] es0[kk]).0.card.name@ == (#[trigger] pre[w]).name@;
            assert(es0[kk].0.card.name@ != nx);
        }
    }
    assert forall|x: int| 0 <= x < es.len() implies entry_of(next, (#[trigger] es[x]).0, es[x].1 as int) by {
        if x < es0.len() {
            assert(es[x] == es0[x]);
            lemma_entry_keeps(pre, c, es0[x].0, es0[x].1 as int);
        } else {
            lemma_name_count_push(pre, c, nx);
            lemma_name_count_zero(pre, nx);
            lemma_first_named_push(pre, c, nx);
            lemma_first_named_index(pre, nx);
            assert(next[pre.len() as int] == c);
        }
    }
    assert forall|i: int| 0 <= i < next.len() implies exists|k: int| 0 <= k < es.len() && (#[trigger] es[k]).0.card.name@ == (#[trigger] next[i]).name@ by {
        if i < pre.len() {
            assert(next[i] == pre[i]);
            let k = choose|k: int| 0 <= k < es0.len() && (#[trigger] es0[k]).0.card.name@ == pre[i].name@;
            assert(es[k] == es0[k]);
        } else {
            assert(es[es0.len() as int].0.card.name@ == next[i].name@);
        }
    }
    assert forall|a: int, b: int| 0 <= a < b < es.len() implies (#[trigger] es[a]).0.card.name@ != (#[trigger] es[b]).0.card.name@ by {
        assert(es[a] == es0[a]);
        if b < es0.len() {
            assert(es[b] == es0[b]);
        }
    }
}

/// Of two entries with different names one is listed first.
proof fn lemma_listed_total(c1: int, n1: Seq<char>, c2: int, n2: Seq<char>)
    requires
        n1 != n2,
    ensures
        listed_before(c1, n1, c2, n2) || listed_before(c2, n2, c1, n1),
{
    lemma_str_less_total(n1, n2);
}

/// Being listed first carries over.
proof fn lemma_listed_trans(c1: int, n1: Seq<char>, c2: int, n2: Seq<char>, c3: int, n3: Seq<char>)
    requires
        listed_before(c1, n1, c2, n2),
        listed_before(c2, n2, c3, n3),
    ensures
        listed_before(c1, n1, c3, n3),
{
    if c1 == c2 && c2 == c3 {
        lemma_str_less_trans(n1, n2, n3);
    }
}

/// Whether entry `a` is listed before entry `b`.
fn entry_before(a: &(CardWithDetails, usize), b: &(CardWithDetails, usize)) -> (r: bool)
    ensures
        r == listed_before(a.1 as int, a.0.card.name@, b.1 as int, b.0.card.name@),
{
    a.1 > b.1 || (a.1 == b.1 && str_before(&a.0.card.name, &b.0.card.name))
}

/// No two of the entries share a name.
pub open spec fn names_distinct(es: Seq<(CardWithDetails, usize)>) -> bool {
    forall|j: int, k: int| 0 <= j < k < es.len() ==> (#[trigger] es[j]).0.card.name@ != (#[trigger] es[k]).0.card.name@
}

/// Putting an entry of a new name at the first place where it is listed
/// before the entry there keeps the entries sorted.
proof fn lemma_insert_sorted(r0: Seq<(CardWithDetails, usize)>, e: (CardWithDetails, usize), p: int)
    requires
        entries_sorted(r0),
        0 <= p <= r0.len(),
        forall|q: int| 0 <= q < p ==> !listed_before(e.1 as int, e.0.card.name@, (#[trigger] r0[q]).1 as int, r0[q].0.card.name@),
        p < r0.len() ==> listed_before(e.1 as int, e.0.card.name@, r0[p].1 as int, r0[p].0.card.name@),
        forall|q: int| 0 <= q < r0.len() ==> (#[trigger] r0[q]).0.card.name@ != e.0.card.name@,
    ensures
        entries_sorted(r0.insert(p, e)),
{
    let r = r0.insert(p, e);
    assert forall|a: int, b: int| 0 <= a < b < r.len() implies
        listed_before((#[trigger] r[a]).1 as int, r[a].0.card.name@, (#[trigger] r[b]).1 as int, r[b].0.card.name@) by {
        if a < p && b < p {
            assert(r[a] == r0[a] && r[b] == r0[b]);
        } else if a < p && b == p {
            assert(r[a] == r0[a]);
            lemma_listed_total(r0[a].1 as int, r0[a].0.card.name@, e.1 as int, e.0.card.name@);
        } else if a < p {
            assert(r[a] == r0[a] && r[b] == r0[b - 1]);
        } else if a == p {
            assert(r[b] == r0[b - 1]);
            if b - 1 > p {
                assert(listed_before(r0[p].1 as int, r0[p].0.card.name@, r0[b - 1].1 as int, r0[b - 1].0.card.name@));
                lemma_listed_trans(e.1 as int, e.0.card.name@, r0[p].1 as int, r0[p].0.card.name@, r0[b - 1].1 as int, r0[b - 1].0.card.name@);
            }
        } else {
            assert(r[a] == r0[a - 1] && r[b] == r0[b - 1]);
        }
    }
}

/// `r` holds, each once, the entries of `es0` from place `n` on.
pub open spec fn holds_tail(r: Seq<(CardWithDetails, usize)>, es0: Seq<(CardWithDetails, usize)>, n: int) -> bool {
    &&& r.len() + n == es0.len()
    &&& forall|x: int| 0 <= x < r.len() ==> exists|y: int| n <= y < es0.len() && (#[trigger] r[x]) == (#[trigger] es0[y])
    &&& forall|y: int| n <= y < es0.len() ==> exists|x: int| 0 <= x < r.len() && (#[trigger] r[x]) == (#[trigger] es0[y])
}

/// Putting entry `n - 1` anywhere among those from `n` on gives those from
/// `n - 1` on.
proof fn lemma_insert_holds(r0: Seq<(CardWithDetails, usize)>, es0: Seq<(CardWithDetails, usize)>, n: int, p: int)
    requires
        holds_tail(r0, es0, n),
        0 < n <= es0.len(),
        0 <= p <= r0.len(),
    ensures
        holds_tail(r0.insert(p, es0[n - 1]), es0, n - 1),
{
    let r = r0.insert(p, es0[n - 1]);
    assert forall|x: int| 0 <= x < r.len() implies exists|y: int| n - 1 <= y < es0.len() && (#[trigger] r[x]) == (#[trigger] es0[y]) by {
        if x < p {
            assert(r[x] == r0[x]);
            let y = choose|y: int| n <= y < es0.len() && (#[trigger] r0[x]) == (#[trigger] es0[y]);
        } else if x == p {
            assert(r[x] == es0[n - 1]);
        } else {
            assert(r[x] == r0[x - 1]);
            let y = choose|y: int| n <= y < es0.len() && (#[trigger] r0[x - 1]) == (#[trigger] es0[y]);
        }
    }
    assert forall|y: int| n - 1 <= y < es0.len() implies exists|x: int| 0 <= x < r.len() && (#[trigger] r[x]) == (#[trigger] es0[y]) by {
        if y == n - 1 {
            assert(r[p] == es0[y]);
        } else {
            let x = choose|x: int| 0 <= x < r0.len() && (#[trigger] r0[x]) == (#[trigger] es0[y]);
            if x < p {
                assert(r[x] == r0[x]);
            } else {
                assert(r[x + 1] == r0[x]);
            }
        }
    }
}

/// The names of the entries from place `n` on differ from that of entry `n - 1`.
proof fn lemma_tail_names(r0: Seq<(CardWithDetails, usize)>, es0: Seq<(CardWithDetails, usize)>, n: int)
    requires
        holds_tail(r0, es0, n),
        names_distinct(es0),
        0 < n <= es0.len(),
    ensures
        forall|q: int| 0 <= q < r0.len() ==> (#[trigger] r0[q]).0.card.name@ != es0[n - 1].0.card.name@,
{
    assert forall|q: int| 0 <= q < r0.len() implies (#[trigger] r0[q]).0.card.name@ != es0[n - 1].0.card.name@ by {
        let y = choose|y: int| n <= y < es0.len() && (#[trigger] r0[q]) == (#[trigger] es0[y]);
        assert(es0[n - 1].0.card.name@ != es0[y].0.card.name@);
    }
}

/// The entries in the order `listed_before` gives: the same entries, each
/// once, the most numerous first and equal counts by name.
fn sort_entries(entries: Vec<(CardWithDetails, usize)>) -> (r: Vec<(CardWithDetails, usize)>)
    requires
        names_distinct(entries@),
    ensures
        holds_tail(r@, entries@, 0),
        entries_sorted(r@),
{
    let ghost es0 = entries@;
    let mut es = entries;
    let mut r: Vec<(CardWithDetails, usize)> = Vec::new();
    while es.len() > 0
        invariant
            names_distinct(es0),
            es@ == es0.subrange(0, es@.len() as int),
            holds_tail(r@, es0, es@.len() as int),
            entries_sorted(r@),
        decreases es@.len(),
    {
        let ghost n = es@.len() as int;
        let e = match es.pop() {
            Some(e) => e,
            None => {
                proof {
                    assert(false);
                }
                return r;
            },
        };
        proof {
            assert(e == es0[n - 1]);
            assert(es@ =~= es0.subrange(0, es@.len() as int));
            lemma_tail_names(r@, es0, n);
        }
        let mut p: usize = 0;
        while p < r.len() && !entry_before(&e, &r[p])
            invariant
                p <= r@.len(),
                forall|q: int| 0 <= q < p ==> !listed_before(e.1 as int, e.0.card.name@, (#[trigger] r@[q]).1 as int, r@[q].0.card.name@),
            decreases r@.len() - p,
        {
            p = p + 1;
        }
        let ghost r0 = r@;
        proof {
            if (p as int) < r0.len() {
                assert(listed_before(e.1 as int, e.0.card.name@, r0[p as int].1 as int, r0[p as int].0.card.name@));
            }
            lemma_insert_sorted(r0, e, p as int);
            lemma_insert_holds(r0, es0, n, p as int);
        }
        r.insert(p, e);
        proof {
            assert(r@ =~= r0.insert(p as int, e));
        }
    }
    r
}

/// The cards grouped by name in the order the names first occur, each name
/// with the details of its first card and its count.
fn group_by_name(cards: &Vec<Card>) -> (es: Vec<(CardWithDetails, usize)>)
    ensures
        grouped(cards@, es@),
{
    let mut es: Vec<(CardWithDetails, usize)> = Vec::new();
    let mut i: usize = 0;
    proof {
        assert(cards@.subrange(0, 0) =~= Seq::<Card>::empty());
    }
    while i < cards.len()
        invariant
            i <= cards@.len(),
            grouped(cards@.subrange(0, i as int), es@),
            forall|k: int| 0 <= k < es@.len() ==> (#[trigger] es@[k]).1 <= i,
        decreases cards@.len() - i,
    {
        let d = CardWithDetails::from_card(cards[i].copy());
        let ghost pre = cards@.subrange(0, i as int);
        let ghost c = cards@[i as int];
        proof {
            assert(cards@.subrange(0, i as int + 1) =~= pre.push(c));
        }
        let mut k: usize = 0;
        let mut found: Option<usize> = None;
        while k < es.len()
            invariant
                k <= es@.len(),
                i < cards@.len(),
                match found {
                    Some(f) => f < es@.len() && es@[f as int].0.card.name@ == cards@[i as int].name@,
                    None => forall|x: int| 0 <= x < k ==> (#[trigger] es@[x]).0.card.name@ != cards@[i as int].name@,
                },
            decreases es@.len() - k,
        {
            if found.is_none() && es[k].0.card.name == cards[i].name {
                found = Some(k);
            }
            k = k + 1;
        }
        let ghost es0 = es@;
        match found {
            Some(f) => {
                let (e, n) = es.remove(f);
                proof {
                    assert(e == es0[f as int].0 && n == es0[f as int].1);
                }
                es.insert(f, (e, n + 1));
                proof {
                    assert(es@ =~= es0.update(f as int, (es0[f as int].0, (n + 1) as usize)));
                    lemma_group_bump(pre, c, es0, f as int, (n + 1) as usize);
                }
            },
            None => {
                es.push((d, 1));
                proof {
                    lemma_group_new(pre, c, es0, d);
                }
            },
        }
        i = i + 1;
    }
    proof {
        assert(cards@.subrange(0, cards@.len() as int) =~= cards@);
    }
    es
}

/// No name is counted more often than there are cards.
proof fn lemma_name_count_le(cards: Seq<Card>, name: Seq<char>)
    ensures
        name_count(cards, name) <= cards.len(),
    decreases cards.len(),
{
    if cards.len() > 0 {
        lemma_name_count_le(cards.drop_last(), name);
    }
}

/// Each count of the sorted groups fits an `i32`.
proof fn lemma_counts_fit(cards: Seq<Card>, es0: Seq<(CardWithDetails, usize)>, r: Seq<(CardWithDetails, usize)>)
    requires
        cards.len() <= i32::MAX,
        grouped(cards, es0),
        holds_tail(r, es0, 0),
    ensures
        forall|j: int| 0 <= j < r.len() ==> (#[trigger] r[j]).1 <= i32::MAX,
{
    assert forall|j: int| 0 <= j < r.len() implies (#[trigger] r[j]).1 <= i32::MAX by {
        let y = choose|y: int| 0 <= y < es0.len() && (#[trigger] r[j]) == (#[trigger] es0[y]);
        assert(entry_of(cards, es0[y].0, es0[y].1 as int));
        lemma_name_count_le(cards, r[j].0.card.name@);
    }
}

/// The sorted groups, each count as an `i32`, list the cards.
proof fn lemma_listing(cards: Seq<Card>, es0: Seq<(CardWithDetails, usize)>, r: Seq<(CardWithDetails, usize)>, out: Seq<CardWithCount>)
    requires
        cards.len() <= i32::MAX,
        grouped(cards, es0),
        holds_tail(r, es0, 0),
        entries_sorted(r),
        out.len() == r.len(),
        forall|k: int| 0 <= k < out.len() ==> (#[trigger] out[k]).card == r[k].0 && out[k].count as int == r[k].1 as int,
    ensures
        deck_listed(cards, out),
{
    assert forall|k: int| 0 <= k < out.len() implies entry_of(cards, (#[trigger] out[k]).card, out[k].count as int) by {
        let y = choose|y: int| 0 <= y < es0.len() && (#[trigger] r[k]) == (#[trigger] es0[y]);
        assert(entry_of(cards, es0[y].0, es0[y].1 as int));
    }
    assert forall|i: int| 0 <= i < cards.len() implies exists|k: int| 0 <= k < out.len() && (#[trigger] out[k]).card.card.name@ == (#[trigger] cards[i]).name@ by {
        let y = choose|y: int| 0 <= y < es0.len() && (#[trigger] es0[y]).0.card.name@ == (#[trigger] cards[i]).name@;
        let x = choose|x: int| 0 <= x < r.len() && (#[trigger] r[x]) == (#[trigger] es0[y]);
        assert(out[x].card.card.name@ == cards[i].name@);
    }
    assert forall|j: int, k: int| 0 <= j < k < out.len() implies
        listed_before((#[trigger] out[j]).count as int, out[j].card.card.name@, (#[trigger] out[k]).count as int, out[k].card.card.name@) by {
        assert(listed_before(r[j].1 as int, r[j].0.card.name@, r[k].1 as int, r[k].0.card.name@));
    }
}

/// The cards of a deck grouped by name: each name once, shown by its first
/// card placed nowhere, with its number of copies; the most numerous first,
/// equal counts by name.
pub fn list_deck(cards: &Vec<Card>) -> (d: DeckDetails)
    requires
        cards@.len() <= i32::MAX,
    ensures
        deck_listed(cards@, d.cards@),
{
    let es = group_by_name(cards);
    let ghost es0 = es@;
    let sorted = sort_entries(es);
    let ghost r = sorted@;
    let total = sorted.len();
    proof {
        lemma_counts_fit(cards@, es0, r);
    }
    let mut rest = sorted;
    let mut out: Vec<CardWithCount> = Vec::new();
    let mut k: usize = 0;
    while rest.len() > 0
        invariant
            forall|j: int| 0 <= j < r.len() ==> (#[trigger] r[j]).1 <= i32::MAX,
            r.len() == total,
            k + rest@.len() == r.len(),
            rest@ == r.subrange(k as int, r.len() as int),
            out@.len() == k,
            forall|j: int| 0 <= j < k ==> (#[trigger] out@[j]).card == r[j].0 && out@[j].count as int == r[j].1 as int,
        decreases rest@.len(),
    {
        let (card, count) = rest.remove(0);
        proof {
            assert((card, count) == r[k as int]);
            assert(rest@ =~= r.subrange(k as int + 1, r.len() as int));
        }
        out.push(CardWithCount { card, count: count as i32 });
        k = k + 1;
    }
    proof {
        lemma_listing(cards@, es0, r, out@);
    }
    DeckDetails { cards: out }
}

impl Lobby {
    /// What the chosen deck is made of, listed by name as `list_deck` lists
    /// cards.
    pub fn get_deck_info(&self, deck: DeckSelector) -> (d: DeckDetails)
        ensures
            exists|cards: Seq<Card>| selected(deck, cards) && deck_listed(cards, d.cards@),
    {
        let cards = Deck::cards_from_selection(&deck);
        list_deck(&cards)
    }
}

} // verus!

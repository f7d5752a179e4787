//! Stats of cards and players: typed intensities stored under unique ids and
//! summed per type.
use vstd::prelude::*;
use crate::rng::new_ulid;

verus! {

/// Someone who wants to hear when the stats of a card change.
pub trait CardStatChangeListener: Send + Sync {
    fn on_stat_change(&self, stats: &Vec<(String, Stat)>);
}

/// The kinds of stats a card or player can carry.
#[derive(Debug, Clone, Copy, PartialEq, Eq, Hash, Structural)]
pub enum StatType {
    Health,
    Power,
    LuckToken,
    Toughness,
    Trample,
    Lifelink,
    Flying,
    Reach,
    Regenerate,
    Deathtouch,
    Vigilance,
    Counter,
    Haist,
}

/// The name of a stat type, as its variant is spelled.
pub open spec fn stat_type_name(t: StatType) -> Seq<char> {
    match t {
        StatType::Health => seq!['H', 'e', 'a', 'l', 't', 'h'],
        StatType::Power => seq!['P', 'o', 'w', 'e', 'r'],
        StatType::LuckToken => seq!['L', 'u', 'c', 'k', 'T', 'o', 'k', 'e', 'n'],
        StatType::Toughness => seq!['T', 'o', 'u', 'g', 'h', 'n', 'e', 's', 's'],
        StatType::Trample => seq!['T', 'r', 'a', 'm', 'p', 'l', 'e'],
        StatType::Lifelink => seq!['L', 'i', 'f', 'e', 'l', 'i', 'n', 'k'],
        StatType::Flying => seq!['F', 'l', 'y', 'i', 'n', 'g'],
        StatType::Reach => seq!['R', 'e', 'a', 'c', 'h'],
        StatType::Regenerate => seq!['R', 'e', 'g', 'e', 'n', 'e', 'r', 'a', 't', 'e'],
        StatType::Deathtouch => seq!['D', 'e', 'a', 't', 'h', 't', 'o', 'u', 'c', 'h'],
        StatType::Vigilance => seq!['V', 'i', 'g', 'i', 'l', 'a', 'n', 'c', 'e'],
        StatType::Counter => seq!['C', 'o', 'u', 'n', 't', 'e', 'r'],
        StatType::Haist => seq!['H', 'a', 'i', 's', 't'],
    }
}

impl StatType {
    /// The name of the stat type, as its variant is spelled.
    pub fn to_string(&self) -> (s: String)
        ensures
            s@ == stat_type_name(*self),
    {
        proof {
            reveal_strlit("Health");
            reveal_strlit("Power");
            reveal_strlit("LuckToken");
            reveal_strlit("Toughness");
            reveal_strlit("Trample");
            reveal_strlit("Lifelink");
            reveal_strlit("Flying");
            reveal_strlit("Reach");
            reveal_strlit("Regenerate");
            reveal_strlit("Deathtouch");
            reveal_strlit("Vigilance");
            reveal_strlit("Counter");
            reveal_strlit("Haist");
        }
        match self {
            StatType::Health => "Health".to_string(),
            StatType::Power => "Power".to_string(),
            StatType::LuckToken => "LuckToken".to_string(),
            StatType::Toughness => "Toughness".to_string(),
            StatType::Trample => "Trample".to_string(),
            StatType::Lifelink => "Lifelink".to_string(),
            StatType::Flying => "Flying".to_string(),
            StatType::Reach => "Reach".to_string(),
            StatType::Regenerate => "Regenerate".to_string(),
            StatType::Deathtouch => "Deathtouch".to_string(),
            StatType::Vigilance => "Vigilance".to_string(),
            StatType::Counter => "Counter".to_string(),
            StatType::Haist => "Haist".to_string(),
        }
    }
}

/// Ids of stats that cards grant themselves under a fixed name.
#[derive(Debug, Clone, Copy, PartialEq, Eq, Structural)]
pub enum StaticStatId {
    Regenerate,
    Flying,
    Lifelink,
    Trample,
}

/// The name of a static stat id, as its variant is spelled.
pub open spec fn static_stat_name(id: StaticStatId) -> Seq<char> {
    match id {
        StaticStatId::Regenerate => seq!['R', 'e', 'g', 'e', 'n', 'e', 'r', 'a', 't', 'e'],
        StaticStatId::Flying => seq!['F', 'l', 'y', 'i', 'n', 'g'],
        StaticStatId::Lifelink => seq!['L', 'i', 'f', 'e', 'l', 'i', 'n', 'k'],
        StaticStatId::Trample => seq!['T', 'r', 'a', 'm', 'p', 'l', 'e'],
    }
}

impl StaticStatId {
    /// The name of the id, as its variant is spelled.
    pub fn to_string(&self) -> (s: String)
        ensures
            s@ == static_stat_name(*self),
    {
        proof {
            reveal_strlit("Regenerate");
            reveal_strlit("Flying");
            reveal_strlit("Lifelink");
            reveal_strlit("Trample");
        }
        match self {
            StaticStatId::Regenerate => "Regenerate".to_string(),
            StaticStatId::Flying => "Flying".to_string(),
            StaticStatId::Lifelink => "Lifelink".to_string(),
            StaticStatId::Trample => "Trample".to_string(),
        }
    }
}

/// One typed amount.
#[derive(Debug, Clone, Copy, PartialEq, Eq, Structural)]
pub struct Stat {
    pub stat_type: StatType,
    pub intensity: i16,
}

impl Stat {
    pub fn new(stat_type: StatType, intensity: i16) -> (s: Stat)
        ensures
            s == (Stat { stat_type, intensity }),
    {
        Stat { stat_type, intensity }
    }

    pub fn set_intensity(&mut self, intensity: i16)
        ensures
            *final(self) == (Stat { intensity, ..*old(self) }),
    {
        self.intensity = intensity
    }
}

/// What an entry adds to the total of type `t`.
pub open spec fn contribution(e: (Seq<char>, Stat), t: StatType) -> int {
    if e.1.stat_type == t { e.1.intensity as int } else { 0 }
}

/// The total intensity of type `t` over a list of entries.
pub open spec fn sum_type(entries: Seq<(Seq<char>, Stat)>, t: StatType) -> int
    decreases entries.len(),
{
    if entries.len() == 0 {
        0
    } else {
        sum_type(entries.drop_last(), t) + contribution(entries.last(), t)
    }
}

/// The ids of a list of entries are pairwise distinct.
pub open spec fn ids_distinct(entries: Seq<(Seq<char>, Stat)>) -> bool {
    forall|i: int, j: int| 0 <= i < j < entries.len() ==> entries[i].0 != entries[j].0
}

/// The map from ids to stats that a list of entries stands for.
pub open spec fn entries_map(entries: Seq<(Seq<char>, Stat)>) -> Map<Seq<char>, Stat>
    decreases entries.len(),
{
    if entries.len() == 0 {
        Map::empty()
    } else {
        entries_map(entries.drop_last()).insert(entries.last().0, entries.last().1)
    }
}

/// Inserting stats under ids one after another, into a starting map.
pub open spec fn insert_all(m: Map<Seq<char>, Stat>, ids: Seq<Seq<char>>, stats: Seq<Stat>) -> Map<Seq<char>, Stat>
    decreases ids.len(),
{
    if ids.len() == 0 || stats.len() == 0 {
        m
    } else {
        insert_all(m, ids.drop_last(), stats.drop_last()).insert(ids.last(), stats.last())
    }
}

pub proof fn lemma_sum_push(s: Seq<(Seq<char>, Stat)>, e: (Seq<char>, Stat), t: StatType)
    ensures
        sum_type(s.push(e), t) == sum_type(s, t) + contribution(e, t),
{
    assert(s.push(e).drop_last() =~= s);
}

pub proof fn lemma_sum_update(s: Seq<(Seq<char>, Stat)>, i: int, e: (Seq<char>, Stat), t: StatType)
    requires
        0 <= i < s.len(),
    ensures
        sum_type(s.update(i, e), t) == sum_type(s, t) - contribution(s[i], t) + contribution(e, t),
    decreases s.len(),
{
    if i == s.len() - 1 {
        assert(s.update(i, e).drop_last() =~= s.drop_last());
    } else {
        lemma_sum_update(s.drop_last(), i, e, t);
        assert(s.update(i, e).drop_last() =~= s.drop_last().update(i, e));
    }
}

pub proof fn lemma_sum_remove(s: Seq<(Seq<char>, Stat)>, i: int, t: StatType)
    requires
        0 <= i < s.len(),
    ensures
        sum_type(s.remove(i), t) == sum_type(s, t) - contribution(s[i], t),
    decreases s.len(),
{
    if i == s.len() - 1 {
        assert(s.remove(i) =~= s.drop_last());
    } else {
        lemma_sum_remove(s.drop_last(), i, t);
        assert(s.remove(i).drop_last() =~= s.drop_last().remove(i));
    }
}

pub proof fn lemma_map_contains(s: Seq<(Seq<char>, Stat)>, id: Seq<char>)
    ensures
        entries_map(s).contains_key(id) <==> exists|i: int| 0 <= i < s.len() && s[i].0 == id,
    decreases s.len(),
{
    if s.len() > 0 {
        lemma_map_contains(s.drop_last(), id);
        if entries_map(s).contains_key(id) && s.last().0 != id {
            let i = choose|i: int| 0 <= i < s.len() - 1 && s.drop_last()[i].0 == id;
            assert(s[i].0 == id);
        }
        if exists|i: int| 0 <= i < s.len() && s[i].0 == id {
            let i = choose|i: int| 0 <= i < s.len() && s[i].0 == id;
            if i < s.len() - 1 {
                assert(s.drop_last()[i].0 == id);
            }
        }
    }
}

pub proof fn lemma_map_value(s: Seq<(Seq<char>, Stat)>, i: int)
    requires
        ids_distinct(s),
        0 <= i < s.len(),
    ensures
        entries_map(s).contains_key(s[i].0),
        entries_map(s)[s[i].0] == s[i].1,
    decreases s.len(),
{
    if i < s.len() - 1 {
        lemma_map_value(s.drop_last(), i);
    }
}

pub proof fn lemma_map_update(s: Seq<(Seq<char>, Stat)>, i: int, v: Stat)
    requires
        ids_distinct(s),
        0 <= i < s.len(),
    ensures
        entries_map(s.update(i, (s[i].0, v))) == entries_map(s).insert(s[i].0, v),
        ids_distinct(s.update(i, (s[i].0, v))),
    decreases s.len(),
{
    let s2 = s.update(i, (s[i].0, v));
    if i == s.len() - 1 {
        assert(s2.drop_last() =~= s.drop_last());
        lemma_map_contains(s.drop_last(), s[i].0);
        assert(entries_map(s2) =~= entries_map(s).insert(s[i].0, v));
    } else {
        lemma_map_update(s.drop_last(), i, v);
        assert(s2.drop_last() =~= s.drop_last().update(i, (s[i].0, v)));
        assert(entries_map(s2) =~= entries_map(s).insert(s[i].0, v));
    }
}

pub proof fn lemma_map_remove(s: Seq<(Seq<char>, Stat)>, i: int)
    requires
        ids_distinct(s),
        0 <= i < s.len(),
    ensures
        entries_map(s.remove(i)) == entries_map(s).remove(s[i].0),
        ids_distinct(s.remove(i)),
    decreases s.len(),
{
    let s2 = s.remove(i);
    if i == s.len() - 1 {
        assert(s2 =~= s.drop_last());
        lemma_map_contains(s.drop_last(), s[i].0);
        assert(entries_map(s2) =~= entries_map(s).remove(s[i].0));
    } else {
        lemma_map_remove(s.drop_last(), i);
        assert(s2.drop_last() =~= s.drop_last().remove(i));
        assert(entries_map(s2) =~= entries_map(s).remove(s[i].0));
    }
}

/// Another handle on the same listener, as `std::sync::Arc::clone` gives it:
/// the handle points at the same listener.
#[verifier::external_body]
fn share_listener(l: &std::sync::Arc<Box<dyn CardStatChangeListener>>) -> (r: std::sync::Arc<Box<dyn CardStatChangeListener>>)
    ensures
        r == *l,
{
    std::sync::Arc::clone(l)
}

/// What `add_stat` leaves: the stat stored under `id`, replacing what was
/// there, and every total moved by the difference.
pub open spec fn stat_added(before: StatManager, after: StatManager, id: Seq<char>, stat: Stat) -> bool {
    &&& after.wf()
    &&& after.as_map() == before.as_map().insert(id, stat)
    &&& forall|t: StatType| #[trigger] after.total(t) == before.total(t)
        - (if before.as_map().contains_key(id) { contribution((id, before.as_map()[id]), t) } else { 0 })
        + contribution((id, stat), t)
}

/// What `remove_stat` leaves: nothing stored under `id`, and every total
/// without what was stored there.
pub open spec fn stat_removed(before: StatManager, after: StatManager, id: Seq<char>) -> bool {
    &&& after.wf()
    &&& after.as_map() == before.as_map().remove(id)
    &&& forall|t: StatType| #[trigger] after.total(t) == before.total(t)
        - (if before.as_map().contains_key(id) { contribution((id, before.as_map()[id]), t) } else { 0 })
}

/// Adding a stat under an id that is not in use and then removing that id
/// gives back the same stats and the same total of every type.
pub proof fn law_add_then_remove_restores(before: StatManager, middle: StatManager, after: StatManager, id: Seq<char>, stat: Stat)
    requires
        before.wf(),
        !before.as_map().contains_key(id),
        stat_added(before, middle, id, stat),
        stat_removed(middle, after, id),
    ensures
        after.as_map() == before.as_map(),
        forall|t: StatType| #[trigger] after.total(t) == before.total(t),
{
    assert(before.as_map().insert(id, stat).remove(id) =~= before.as_map());
    assert forall|t: StatType| #[trigger] after.total(t) == before.total(t) by {
        assert(middle.as_map().contains_key(id));
        assert(middle.as_map()[id] == stat);
        assert(middle.total(t) == before.total(t) + contribution((id, stat), t));
    }
}

/// Adding a stat under an id that is in use replaces it: the total of every
/// type moves by the difference between the new and the old stat.
pub proof fn law_add_replaces(before: StatManager, after: StatManager, id: Seq<char>, stat: Stat)
    requires
        before.wf(),
        before.as_map().contains_key(id),
        stat_added(before, after, id, stat),
    ensures
        after.as_map()[id] == stat,
        after.as_map().dom() == before.as_map().dom(),
        forall|t: StatType| #[trigger] after.total(t) == before.total(t) - contribution((id, before.as_map()[id]), t) + contribution((id, stat), t),
{
    assert(after.as_map().dom() =~= before.as_map().dom());
    assert forall|t: StatType| #[trigger] after.total(t) == before.total(t) - contribution((id, before.as_map()[id]), t) + contribution((id, stat), t) by {
        assert(after.total(t) == before.total(t) - contribution((id, before.as_map()[id]), t) + contribution((id, stat), t));
    }
}

/// Something that carries stats.
pub trait Stats {
    /// The stats the value carries.
    spec fn stat_manager(&self) -> StatManager;

    fn add_stat(&mut self, id: String, stat: Stat)
        requires
            old(self).stat_manager().wf(),
        ensures
            stat_added(old(self).stat_manager(), final(self).stat_manager(), id@, stat),
    ;

    fn remove_stat(&mut self, id: String)
        requires
            old(self).stat_manager().wf(),
        ensures
            stat_removed(old(self).stat_manager(), final(self).stat_manager(), id@),
    ;

    fn get_stat_value(&self, stat_type: StatType) -> (v: i16)
        requires
            self.stat_manager().stats@.len() < 0x1_0000_0000,
            i16::MIN <= self.stat_manager().total(stat_type) <= i16::MAX,
        ensures
            v == self.stat_manager().total(stat_type),
    ;

    fn modify_stat(&mut self, stat_type: StatType, intensity: i16)
        requires
            old(self).stat_manager().wf(),
            forall|i: int| 0 <= i < old(self).stat_manager().view().len() && (#[trigger] old(self).stat_manager().view()[i]).1.stat_type == stat_type
                ==> i16::MIN <= old(self).stat_manager().view()[i].1.intensity + intensity <= i16::MAX,
        ensures
            final(self).stat_manager().wf(),
            final(self).stat_manager().view().len() == old(self).stat_manager().view().len(),
            forall|i: int| 0 <= i < old(self).stat_manager().view().len() ==> (#[trigger] final(self).stat_manager().view()[i]) == (
                if old(self).stat_manager().view()[i].1.stat_type == stat_type {
                    (old(self).stat_manager().view()[i].0, Stat { intensity: (old(self).stat_manager().view()[i].1.intensity + intensity) as i16, ..old(self).stat_manager().view()[i].1 })
                } else {
                    old(self).stat_manager().view()[i]
                }),
    ;
}

/// The stats of a card or player, stored under ids that are unique among them.
pub struct StatManager {
    pub stats: Vec<(String, Stat)>,
    pub listeners: Vec<std::sync::Arc<Box<dyn CardStatChangeListener>>>,
}

impl StatManager {
    /// The entries, ids taken by their characters.
    pub open spec fn view(&self) -> Seq<(Seq<char>, Stat)> {
        self.stats@.map_values(|e: (String, Stat)| (e.0@, e.1))
    }

    /// No id occurs twice.
    pub open spec fn wf(&self) -> bool {
        ids_distinct(self.view())
    }

    /// The stats as a map from ids.
    pub open spec fn as_map(&self) -> Map<Seq<char>, Stat> {
        entries_map(self.view())
    }

    /// The total intensity of type `t`.
    pub open spec fn total(&self, t: StatType) -> int {
        sum_type(self.view(), t)
    }

    /// Where `id` is stored, if it is.
    fn find(&self, id: &String) -> (r: Option<usize>)
        ensures
            match r {
                Some(i) => i < self.view().len() && self.view()[i as int].0 == id@,
                None => forall|i: int| 0 <= i < self.view().len() ==> self.view()[i].0 != id@,
            },
    {
        let mut i: usize = 0;
        while i < self.stats.len()
            invariant
                i <= self.stats@.len(),
                forall|j: int| 0 <= j < i ==> self.view()[j].0 != id@,
            decreases self.stats@.len() - i,
        {
            if self.stats[i].0 == *id {
                return Some(i);
            }
            i = i + 1;
        }
        None
    }

    /// An empty manager.
    pub fn empty() -> (s: StatManager)
        ensures
            s.view() == Seq::<(Seq<char>, Stat)>::empty(),
            s.wf(),
            s.listeners@.len() == 0,
    {
        let s = StatManager { stats: Vec::new(), listeners: Vec::new() };
        assert(s.view() =~= Seq::<(Seq<char>, Stat)>::empty());
        s
    }

    /// A manager holding the given stats, each under a freshly generated id.
    pub fn new(stats: Vec<Stat>) -> (s: StatManager)
        ensures
            s.wf(),
            s.listeners@.len() == 0,
            exists|ids: Seq<Seq<char>>| ids.len() == stats@.len()
                && s.as_map() == insert_all(Map::empty(), ids, stats@),
    {
        let mut s = StatManager::empty();
        let ghost mut ids: Seq<Seq<char>> = Seq::empty();
        let mut i: usize = 0;
        while i < stats.len()
            invariant
                i <= stats@.len(),
                s.wf(),
                s.listeners@.len() == 0,
                ids.len() == i,
                s.as_map() == insert_all(Map::empty(), ids, stats@.subrange(0, i as int)),
            decreases stats@.len() - i,
        {
            let id = new_ulid();
            let ghost old_map = s.as_map();
            s.add_stat(id.clone(), stats[i]);
            proof {
                let sub = stats@.subrange(0, i as int + 1);
                assert(sub.drop_last() =~= stats@.subrange(0, i as int));
                assert(ids.push(id@).drop_last() =~= ids);
                ids = ids.push(id@);
            }
            i = i + 1;
        }
        proof {
            assert(stats@.subrange(0, stats@.len() as int) =~= stats@);
        }
        s
    }

    /// A copy of this manager that shares its listeners.
    pub fn copy(&self) -> (r: StatManager)
        ensures
            r.view() == self.view(),
            r.listeners@ == self.listeners@,
    {
        let mut stats: Vec<(String, Stat)> = Vec::new();
        let mut i: usize = 0;
        while i < self.stats.len()
            invariant
                i <= self.stats@.len(),
                stats@.len() == i,
                forall|j: int| 0 <= j < i ==> (#[trigger] stats@[j]).0@ == self.stats@[j].0@ && stats@[j].1 == self.stats@[j].1,
            decreases self.stats@.len() - i,
        {
            let k = self.stats[i].0.clone();
            let c = self.stats[i].1;
            stats.push((k, c));
            i = i + 1;
        }
        let mut listeners: Vec<std::sync::Arc<Box<dyn CardStatChangeListener>>> = Vec::new();
        let mut j: usize = 0;
        while j < self.listeners.len()
            invariant
                j <= self.listeners@.len(),
                listeners@ == self.listeners@.subrange(0, j as int),
            decreases self.listeners@.len() - j,
        {
            listeners.push(share_listener(&self.listeners[j]));
            j = j + 1;
            proof { assert(listeners@ =~= self.listeners@.subrange(0, j as int)); }
        }
        let r = StatManager { stats, listeners };
        proof {
            assert(self.listeners@.subrange(0, self.listeners@.len() as int) =~= self.listeners@);
            assert(r.view() =~= self.view());
        }
        r
    }

    /// Registers a listener.
    pub fn add_listener(&mut self, listener: std::sync::Arc<Box<dyn CardStatChangeListener>>)
        ensures
            final(self).listeners@ == old(self).listeners@.push(listener),
            final(self).stats == old(self).stats,
    {
        self.listeners.push(listener);
    }
}

impl Stats for StatManager {
    open spec fn stat_manager(&self) -> StatManager {
        *self
    }

    /// Stores `stat` under `id`, replacing whatever was stored there.
    fn add_stat(&mut self, id: String, stat: Stat)
        ensures
            final(self).listeners == old(self).listeners,
    {
        let ghost v0 = self.view();
        match self.find(&id) {
            Some(i) => {
                let ghost idv = id@;
                self.stats.set(i, (id, stat));
                proof {
                    assert(self.view() =~= v0.update(i as int, (v0[i as int].0, stat)));
                    lemma_map_update(v0, i as int, stat);
                    lemma_map_value(v0, i as int);
                    assert forall|t: StatType| #[trigger] self.total(t) == sum_type(v0, t)
                        - contribution((idv, entries_map(v0)[idv]), t) + contribution((idv, stat), t) by {
                        lemma_sum_update(v0, i as int, (v0[i as int].0, stat), t);
                    }
                }
            }
            None => {
                let ghost idv = id@;
                self.stats.push((id, stat));
                proof {
                    assert(self.view() =~= v0.push((idv, stat)));
                    assert(self.view().drop_last() =~= v0);
                    lemma_map_contains(v0, idv);
                    assert forall|t: StatType| #[trigger] self.total(t) == sum_type(v0, t) + contribution((idv, stat), t) by {
                        lemma_sum_push(v0, (idv, stat), t);
                    }
                }
            }
        }
    }

    /// Removes whatever is stored under `id`.
    fn remove_stat(&mut self, id: String)
        ensures
            final(self).listeners == old(self).listeners,
    {
        let ghost v0 = self.view();
        match self.find(&id) {
            Some(i) => {
                self.stats.remove(i);
                proof {
                    assert(self.view() =~= v0.remove(i as int));
                    lemma_map_remove(v0, i as int);
                    lemma_map_value(v0, i as int);
                    assert forall|t: StatType| #[trigger] self.total(t) == sum_type(v0, t)
                        - contribution((id@, entries_map(v0)[id@]), t) by {
                        lemma_sum_remove(v0, i as int, t);
                    }
                }
            }
            None => {
                proof {
                    lemma_map_contains(v0, id@);
                    assert(entries_map(v0).remove(id@) =~= entries_map(v0));
                }
            }
        }
    }

    /// The total intensity of the stats of the given type.
    fn get_stat_value(&self, stat_type: StatType) -> (v: i16)
    {
        let mut acc: i64 = 0;
        let mut i: usize = 0;
        while i < self.stats.len()
            invariant
                i <= self.stats@.len(),
                self.stats@.len() < 0x1_0000_0000,
                acc == sum_type(self.view().subrange(0, i as int), stat_type),
                -32768 * (i as int) <= acc <= 32767 * (i as int),
            decreases self.stats@.len() - i,
        {
            proof {
                assert(self.view().subrange(0, i as int + 1).drop_last() =~= self.view().subrange(0, i as int));
            }
            if self.stats[i].1.stat_type == stat_type {
                acc = acc + self.stats[i].1.intensity as i64;
            }
            i = i + 1;
        }
        proof {
            assert(self.view().subrange(0, i as int) =~= self.view());
        }
        acc as i16
    }

    /// Adds `intensity` to every stat of the given type.
    fn modify_stat(&mut self, stat_type: StatType, intensity: i16)
        ensures
            final(self).listeners == old(self).listeners,
    {
        let ghost v0 = self.view();
        let mut i: usize = 0;
        while i < self.stats.len()
            invariant
                i <= self.stats@.len(),
                self.view().len() == v0.len(),
                ids_distinct(v0),
                self.listeners == old(self).listeners,
                v0 == old(self).view(),
                forall|k: int| 0 <= k < v0.len() && (#[trigger] v0[k]).1.stat_type == stat_type
                    ==> i16::MIN <= v0[k].1.intensity + intensity <= i16::MAX,
                forall|k: int| i <= k < v0.len() ==> #[trigger] self.view()[k] == v0[k],
                forall|k: int| 0 <= k < i ==> (#[trigger] self.view()[k]) == (
                    if v0[k].1.stat_type == stat_type {
                        (v0[k].0, Stat { intensity: (v0[k].1.intensity + intensity) as i16, ..v0[k].1 })
                    } else {
                        v0[k]
                    }),
            decreases self.stats@.len() - i,
        {
            if self.stats[i].1.stat_type == stat_type {
                assert(v0[i as int] == self.view()[i as int]);
                let id = self.stats[i].0.clone();
                let st = self.stats[i].1;
                let new_stat = Stat { intensity: st.intensity + intensity, ..st };
                let ghost before = self.view();
                self.stats.set(i, (id, new_stat));
                proof {
                    assert(self.view() =~= before.update(i as int, (v0[i as int].0, new_stat)));
                }
            }
            i = i + 1;
        }
        proof {
            assert forall|a: int, b: int| 0 <= a < b < self.view().len() implies self.view()[a].0 != self.view()[b].0 by {
                assert(self.view()[a].0 == v0[a].0);
                assert(self.view()[b].0 == v0[b].0);
            }
        }
    }
}

} // verus!

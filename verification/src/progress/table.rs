//! A table of values by day, kept in day order, one entry per day: a sorted map from
//! `DayKey` to a value.
use vstd::prelude::*;

use super::day::{
    key_lt, lemma_key_lt_asymmetric, lemma_key_lt_irreflexive, lemma_key_lt_transitive, DayKey,
    KeyOrder,
};

verus! {

/// The keys of `keys`, as text.
pub open spec fn texts(keys: Seq<DayKey>) -> Seq<Seq<char>> {
    keys.map_values(|k: DayKey| k@)
}

/// Strictly ascending, so no day appears twice.
pub open spec fn ascending(ks: Seq<Seq<char>>) -> bool {
    forall|i: int, j: int| 0 <= i < j < ks.len() ==> key_lt(#[trigger] ks[i], #[trigger] ks[j])
}

/// Where `k` stands among `ks`.
pub open spec fn position(ks: Seq<Seq<char>>, k: Seq<char>) -> int {
    choose|i: int| 0 <= i < ks.len() && ks[i] == k
}

pub proof fn lemma_position(ks: Seq<Seq<char>>, i: int)
    requires
        ascending(ks),
        0 <= i < ks.len(),
    ensures
        position(ks, ks[i]) == i,
{
    let p = position(ks, ks[i]);
    assert(0 <= p < ks.len() && ks[p] == ks[i]);
    if p < i {
        lemma_key_lt_irreflexive(ks[i]);
    } else if p > i {
        lemma_key_lt_irreflexive(ks[i]);
    }
}

/// Values by day, in day order.
#[derive(Debug)]
pub struct DayTable<V: Copy> {
    keys: Vec<DayKey>,
    vals: Vec<V>,
}

impl<V: Copy> DayTable<V> {
    /// Every day once, in order, each with its value.
    pub closed spec fn wf(&self) -> bool {
        &&& self.keys.len() == self.vals.len()
        &&& ascending(texts(self.keys@))
    }

    /// The days, oldest first.
    pub closed spec fn days(&self) -> Seq<Seq<char>> {
        texts(self.keys@)
    }

    /// The values, in the order of `days`.
    pub closed spec fn values(&self) -> Seq<V> {
        self.vals@
    }

    /// The table as a map from a day's text to its value.
    pub open spec fn map(&self) -> Map<Seq<char>, V> {
        Map::new(
            |k: Seq<char>| self.days().contains(k),
            |k: Seq<char>| self.values()[position(self.days(), k)],
        )
    }

    /// What the table holds for `k`.
    pub open spec fn lookup(&self, k: Seq<char>) -> Option<V> {
        if self.days().contains(k) {
            Some(self.map()[k])
        } else {
            None
        }
    }

    pub proof fn lemma_shape(&self)
        requires
            self.wf(),
        ensures
            self.days().len() == self.values().len(),
            ascending(self.days()),
            forall|i: int|
                0 <= i < self.days().len() ==> #[trigger] self.lookup(self.days()[i]) == Some(
                    self.values()[i],
                ),
    {
        assert forall|i: int| 0 <= i < self.days().len() implies #[trigger] self.lookup(
            self.days()[i],
        ) == Some(self.values()[i]) by {
            lemma_position(self.days(), i);
        }
    }

    pub fn new() -> (t: Self)
        ensures
            t.wf(),
            t.days() == Seq::<Seq<char>>::empty(),
            forall|k: Seq<char>| t.lookup(k) is None,
    {
        let t = DayTable { keys: Vec::new(), vals: Vec::new() };
        assert(t.days() =~= Seq::<Seq<char>>::empty());
        t
    }

    pub fn len(&self) -> (n: usize)
        requires
            self.wf(),
        ensures
            n == self.days().len(),
    {
        self.keys.len()
    }

    /// The `i`th day, oldest first.
    pub fn day_at(&self, i: usize) -> (k: &DayKey)
        requires
            self.wf(),
            i < self.days().len(),
        ensures
            k@ == self.days()[i as int],
    {
        &self.keys[i]
    }

    /// The value of the `i`th day.
    pub fn value_at(&self, i: usize) -> (v: V)
        requires
            self.wf(),
            i < self.days().len(),
        ensures
            v == self.values()[i as int],
    {
        self.vals[i]
    }

    /// Where `k` is, or where it would go.
    fn search(&self, k: &DayKey) -> (r: Result<usize, usize>)
        requires
            self.wf(),
        ensures
            match r {
                Ok(i) => i < self.days().len() && self.days()[i as int] == k@,
                Err(i) => i <= self.days().len() && (forall|j: int|
                    0 <= j < i ==> key_lt(#[trigger] self.days()[j], k@)) && (forall|j: int|
                    i <= j < self.days().len() ==> key_lt(k@, #[trigger] self.days()[j])),
            },
    {
        let n = self.keys.len();
        let mut i: usize = 0;
        while i < n
            invariant
                n == self.days().len(),
                i <= n,
                ascending(self.days()),
                forall|j: int| 0 <= j < i ==> key_lt(#[trigger] self.days()[j], k@),
            decreases n - i,
        {
            match self.keys[i].compare(k) {
                KeyOrder::Less => {},
                KeyOrder::Equal => {
                    return Ok(i);
                },
                KeyOrder::Greater => {
                    proof {
                        assert forall|j: int| i <= j < self.days().len() implies key_lt(
                            k@,
                            #[trigger] self.days()[j],
                        ) by {
                            if j > i {
                                lemma_key_lt_transitive(k@, self.days()[i as int], self.days()[j]);
                            }
                        }
                    }
                    return Err(i);
                },
            }
            i = i + 1;
        }
        Err(i)
    }

    /// What the table holds for `k`.
    pub fn get(&self, k: &DayKey) -> (r: Option<V>)
        requires
            self.wf(),
        ensures
            r == self.lookup(k@),
    {
        proof {
            self.lemma_shape();
        }
        match self.search(k) {
            Ok(i) => Some(self.vals[i]),
            Err(i) => {
                proof {
                    if self.days().contains(k@) {
                        let j = choose|j: int| 0 <= j < self.days().len() && self.days()[j] == k@;
                        lemma_key_lt_irreflexive(k@);
                    }
                }
                None
            },
        }
    }

    /// Sets the value of `k`, adding the day if it was not there.
    pub fn set(&mut self, k: DayKey, v: V)
        requires
            old(self).wf(),
        ensures
            final(self).wf(),
            final(self).map() == old(self).map().insert(k@, v),
            final(self).days().to_set() == old(self).days().to_set().insert(k@),
            final(self).lookup(k@) == Some(v),
            forall|x: Seq<char>| x != k@ ==> #[trigger] final(self).lookup(x) == old(self).lookup(x),
            old(self).lookup(k@) matches Some(was) ==> exists|p: int|
                0 <= p < old(self).values().len() && old(self).values()[p] == was
                    && final(self).values() == old(self).values().update(p, v),
            old(self).lookup(k@) is None ==> exists|p: int|
                0 <= p <= old(self).values().len() && final(self).values() == old(self).values().insert(
                    p,
                    v,
                ),
    {
        proof {
            self.lemma_shape();
        }
        let ghost old_days = self.days();
        let ghost old_vals = self.values();
        let ghost old_map = self.map();
        let ghost kv = k@;
        match self.search(&k) {
            Ok(i) => {
                self.vals.set(i, v);
                proof {
                    assert(self.days() == old_days);
                    assert(self.values() == old_vals.update(i as int, v));
                    assert(old(self).lookup(kv) == Some(old_vals[i as int]));
                    assert forall|x: Seq<char>| #[trigger] self.map().contains_key(x)
                        == old_map.insert(kv, v).contains_key(x) by {}
                    assert forall|x: Seq<char>| self.map().contains_key(x) implies #[trigger] self.map()[x]
                        == old_map.insert(kv, v)[x] by {
                        let p = position(old_days, x);
                        lemma_position(old_days, p);
                        if x == kv {
                            lemma_position(old_days, i as int);
                        }
                    }
                    assert(self.map() =~= old_map.insert(kv, v));
                    assert(self.days().to_set() =~= old_days.to_set().insert(kv));
                }
            },
            Err(i) => {
                self.keys.insert(i, k);
                self.vals.insert(i, v);
                proof {
                    let nd = self.days();
                    assert(nd =~= old_days.insert(i as int, kv));
                    assert(ascending(nd)) by {
                        assert forall|a: int, b: int| 0 <= a < b < nd.len() implies key_lt(
                            #[trigger] nd[a],
                            #[trigger] nd[b],
                        ) by {
                            if b < i {
                            } else if a > i {
                                assert(nd[a] == old_days[a - 1]);
                                assert(nd[b] == old_days[b - 1]);
                            } else if a == i {
                                assert(nd[b] == old_days[b - 1]);
                            } else if b == i {
                            } else {
                                assert(nd[b] == old_days[b - 1]);
                                lemma_key_lt_transitive(nd[a], kv, nd[b]);
                            }
                        }
                    }
                    assert(self.values() =~= old_vals.insert(i as int, v));
                    assert(!old_days.contains(kv)) by {
                        if old_days.contains(kv) {
                            let q = choose|q: int| 0 <= q < old_days.len() && old_days[q] == kv;
                            lemma_key_lt_irreflexive(kv);
                        }
                    }
                    assert forall|x: Seq<char>| #[trigger] self.map().contains_key(x)
                        == old_map.insert(kv, v).contains_key(x) by {
                        if old_days.contains(x) {
                            let p = choose|p: int| 0 <= p < old_days.len() && old_days[p] == x;
                            if p < i {
                                assert(nd[p] == x);
                            } else {
                                assert(nd[p + 1] == x);
                            }
                        }
                        if nd.contains(x) {
                            let p = choose|p: int| 0 <= p < nd.len() && nd[p] == x;
                            if p < i {
                                assert(old_days[p] == x);
                            } else if p > i {
                                assert(old_days[p - 1] == x);
                            }
                        }
                        assert(nd[i as int] == kv);
                    }
                    assert forall|x: Seq<char>| self.map().contains_key(x) implies #[trigger] self.map()[x]
                        == old_map.insert(kv, v)[x] by {
                        let p = position(nd, x);
                        lemma_position(nd, p);
                        if x == kv {
                            lemma_position(nd, i as int);
                        } else {
                            if p < i {
                                assert(old_days[p] == x);
                                lemma_position(old_days, p);
                            } else {
                                assert(p != i);
                                assert(old_days[p - 1] == x);
                                lemma_position(old_days, p - 1);
                            }
                        }
                    }
                    assert(self.map() =~= old_map.insert(kv, v));
                    assert(self.days().to_set() =~= old_days.to_set().insert(kv)) by {
                        assert forall|x: Seq<char>| #[trigger] self.days().to_set().contains(x)
                            == old_days.to_set().insert(kv).contains(x) by {
                            if old_days.contains(x) {
                                let p = choose|p: int| 0 <= p < old_days.len() && old_days[p] == x;
                                if p < i {
                                    assert(nd[p] == x);
                                } else {
                                    assert(nd[p + 1] == x);
                                }
                            }
                            if nd.contains(x) {
                                let p = choose|p: int| 0 <= p < nd.len() && nd[p] == x;
                                if p < i {
                                    assert(old_days[p] == x);
                                } else if p > i {
                                    assert(old_days[p - 1] == x);
                                }
                            }
                            assert(nd[i as int] == kv);
                        }
                    }
                }
            },
        }
        proof {
            assert(self.map().contains_key(kv));
            assert forall|x: Seq<char>| x != kv implies #[trigger] self.lookup(x) == old(self).lookup(x) by {
                assert(self.map().contains_key(x) == old_map.contains_key(x));
                assert(self.days().contains(x) == self.map().contains_key(x));
                assert(old_days.contains(x) == old_map.contains_key(x));
            }
        }
    }

    /// The earliest day, if there is one.
    pub fn first_day(&self) -> (r: Option<&DayKey>)
        requires
            self.wf(),
        ensures
            match r {
                Some(k) => self.days().len() > 0 && k@ == self.days()[0],
                None => self.days().len() == 0,
            },
    {
        if self.keys.len() == 0 {
            None
        } else {
            Some(&self.keys[0])
        }
    }

    /// Keeps only the days from `floor` on, and says how many went.
    pub fn retain_from(&mut self, floor: &DayKey) -> (dropped: usize)
        requires
            old(self).wf(),
        ensures
            final(self).wf(),
            final(self).days() == old(self).days().filter(|d: Seq<char>| !key_lt(d, floor@)),
            forall|k: Seq<char>|
                #[trigger] final(self).lookup(k) == (if key_lt(k, floor@) {
                    None
                } else {
                    old(self).lookup(k)
                }),
            dropped == old(self).days().len() - final(self).days().len(),
    {
        proof {
            self.lemma_shape();
        }
        let ghost od = self.days();
        let ghost ov = self.values();
        let n = self.keys.len();
        let mut start: usize = 0;
        while start < n && self.keys[start].is_before(floor)
            invariant
                n == od.len(),
                od == self.days(),
                start <= n,
                forall|j: int| 0 <= j < start ==> key_lt(#[trigger] od[j], floor@),
            decreases n - start,
        {
            start = start + 1;
        }
        proof {
            assert forall|j: int| start <= j < n implies !key_lt(#[trigger] od[j], floor@) by {
                if j > start && key_lt(od[j], floor@) {
                    lemma_key_lt_transitive(od[start as int], od[j], floor@);
                }
            }
        }
        let mut keys: Vec<DayKey> = Vec::new();
        let mut vals: Vec<V> = Vec::new();
        let mut i = start;
        while i < n
            invariant
                n == od.len(),
                n == self.keys@.len(),
                n == self.vals@.len(),
                od == self.days(),
                ov == self.values(),
                start <= i <= n,
                texts(keys@) == od.subrange(start as int, i as int),
                vals@ == ov.subrange(start as int, i as int),
            decreases n - i,
        {
            let ghost before = keys@;
            let k = self.keys[i].copied();
            assert(k@ == od[i as int]);
            keys.push(k);
            vals.push(self.vals[i]);
            proof {
                assert(keys@ == before.push(k));
                assert(texts(keys@) =~= texts(before).push(k@));
                assert(texts(keys@) =~= od.subrange(start as int, i + 1));
                assert(vals@ =~= ov.subrange(start as int, i + 1));
            }
            i = i + 1;
        }
        self.keys = keys;
        self.vals = vals;
        proof {
            let nd = self.days();
            assert(nd =~= od.skip(start as int));
            assert(ascending(nd)) by {
                assert forall|a: int, b: int| 0 <= a < b < nd.len() implies key_lt(
                    #[trigger] nd[a],
                    #[trigger] nd[b],
                ) by {
                    assert(nd[a] == od[a + start]);
                    assert(nd[b] == od[b + start]);
                }
            }
            lemma_filter_suffix(od, floor@, start as int);
            assert forall|k: Seq<char>|
                #[trigger] self.lookup(k) == (if key_lt(k, floor@) {
                    None
                } else {
                    old(self).lookup(k)
                }) by {
                self.lemma_shape();
                if nd.contains(k) {
                    let p = choose|p: int| 0 <= p < nd.len() && nd[p] == k;
                    assert(od[p + start] == k);
                    assert(self.lookup(nd[p]) == Some(self.values()[p]));
                    assert(old(self).lookup(od[p + start]) == Some(ov[p + start]));
                } else if od.contains(k) {
                    let p = choose|p: int| 0 <= p < od.len() && od[p] == k;
                    if p >= start {
                        assert(nd[p - start] == k);
                    }
                }
            }
        }
        start
    }
}

proof fn lemma_filter_suffix(ks: Seq<Seq<char>>, floor: Seq<char>, start: int)
    requires
        0 <= start <= ks.len(),
        forall|j: int| 0 <= j < start ==> key_lt(#[trigger] ks[j], floor),
        forall|j: int| start <= j < ks.len() ==> !key_lt(#[trigger] ks[j], floor),
    ensures
        ks.filter(|d: Seq<char>| !key_lt(d, floor)) == ks.skip(start),
    decreases ks.len(),
{
    reveal_with_fuel(Seq::filter, 1);
    if ks.len() > 0 {
        if start == ks.len() {
            lemma_filter_suffix(ks.drop_last(), floor, start - 1);
            assert(ks.drop_last().skip(start - 1) =~= Seq::<Seq<char>>::empty());
            assert(ks.skip(start) =~= Seq::<Seq<char>>::empty());
        } else {
            lemma_filter_suffix(ks.drop_last(), floor, start);
            assert(ks.skip(start) =~= ks.drop_last().skip(start).push(ks.last()));
        }
    } else {
        assert(ks.skip(start) =~= ks);
    }
}

/// Values by day behind a table that is always in order: each day once, oldest first.
#[derive(Debug)]
pub struct DayMap<V: Copy> {
    table: DayTable<V>,
}

impl<V: Copy> DayMap<V> {
    #[verifier::type_invariant]
    spec fn well_formed(self) -> bool {
        self.table.wf()
    }

    /// What the map holds for a day.
    pub closed spec fn lookup(&self, day: Seq<char>) -> Option<V> {
        self.table.lookup(day)
    }

    /// The days it holds, oldest first.
    pub closed spec fn days(&self) -> Seq<Seq<char>> {
        self.table.days()
    }

    /// The values, in the order of `days`.
    pub closed spec fn values(&self) -> Seq<V> {
        self.table.values()
    }

    pub fn new() -> (m: Self)
        ensures
            m.days() == Seq::<Seq<char>>::empty(),
            m.values() == Seq::<V>::empty(),
            forall|k: Seq<char>| m.lookup(k) is None,
    {
        let m = DayMap { table: DayTable::new() };
        assert(m.values() =~= Seq::<V>::empty());
        m
    }

    pub fn get(&self, day: &DayKey) -> (r: Option<V>)
        ensures
            r == self.lookup(day@),
    {
        proof {
            use_type_invariant(self);
        }
        self.table.get(day)
    }

    /// Sets a day's value.
    pub fn set(&mut self, day: DayKey, v: V)
        ensures
            final(self).lookup(day@) == Some(v),
            forall|k: Seq<char>| k != day@ ==> #[trigger] final(self).lookup(k) == old(self).lookup(k),
            final(self).days().to_set() == old(self).days().to_set().insert(day@),
            old(self).lookup(day@) matches Some(was) ==> exists|p: int|
                0 <= p < old(self).values().len() && old(self).values()[p] == was
                    && final(self).values() == old(self).values().update(p, v),
            old(self).lookup(day@) is None ==> exists|p: int|
                0 <= p <= old(self).values().len() && final(self).values() == old(self).values().insert(
                    p,
                    v,
                ),
    {
        proof {
            use_type_invariant(&*self);
        }
        let ghost before = self.table;
        let ghost key = day@;
        let mut table = DayTable::new();
        std::mem::swap(&mut table, &mut self.table);
        table.set(day, v);
        self.table = table;
        proof {
            assert(old(self).values() == before.values());
            if let Some(was) = before.lookup(key) {
                let p = choose|p: int|
                    0 <= p < before.values().len() && before.values()[p] == was
                        && self.table.values() == before.values().update(p, v);
                assert(self.values() == old(self).values().update(p, v));
            } else {
                let p = choose|p: int|
                    0 <= p <= before.values().len() && self.table.values() == before.values().insert(p, v);
                assert(self.values() == old(self).values().insert(p, v));
            }
        }
    }

    pub fn len(&self) -> (n: usize)
        ensures
            n == self.days().len(),
            n == self.values().len(),
    {
        proof {
            use_type_invariant(self);
            self.table.lemma_shape();
        }
        self.table.len()
    }

    /// The `i`th day and its value, oldest first.
    pub fn entry(&self, i: usize) -> (r: (&DayKey, V))
        requires
            i < self.days().len(),
        ensures
            r.0@ == self.days()[i as int],
            r.1 == self.values()[i as int],
    {
        proof {
            use_type_invariant(self);
        }
        (self.table.day_at(i), self.table.value_at(i))
    }

    /// The earliest day, if there is one.
    pub fn first_day(&self) -> (r: Option<&DayKey>)
        ensures
            match r {
                Some(k) => self.days().len() > 0 && k@ == self.days()[0],
                None => self.days().len() == 0,
            },
    {
        proof {
            use_type_invariant(self);
        }
        self.table.first_day()
    }
}

} // verus!

use vstd::prelude::*;

use super::object::{StringObject, StringView};
use super::value::{Val, ValView};

verus! {

/// What a bucket stands for.
pub struct EntryView {
    pub key: Option<StringView>,
    pub value: ValView,
}

/// One bucket of a table. Without a key it is empty when its value is nil, and a
/// tombstone otherwise.
#[derive(Debug)]
pub struct Entry {
    pub key: Option<StringObject>,
    pub value: Val,
}

impl View for Entry {
    type V = EntryView;

    open spec fn view(&self) -> EntryView {
        EntryView {
            key: match self.key {
                Some(k) => Some(k@),
                None => None,
            },
            value: self.value@,
        }
    }
}

impl Entry {
    /// A bucket that holds `value` under `key`.
    pub fn new(key: StringObject, value: Val) -> (r: Self)
        ensures
            r@ == (EntryView { key: Some(key@), value: value@ }),
    {
        Self { key: Some(key), value }
    }
}

impl Default for Entry {
    fn default() -> (r: Self)
        ensures
            r@ == (EntryView { key: None, value: ValView::Nil }),
    {
        Self { key: None, value: Val::nil() }
    }
}

impl Clone for Entry {
    fn clone(&self) -> (r: Self)
        ensures
            r@ == self@,
    {
        Self {
            key: match &self.key {
                Some(k) => Some(k.clone()),
                None => None,
            },
            value: self.value.clone(),
        }
    }
}

/// A bucket that was never used.
pub open spec fn slot_empty(e: EntryView) -> bool {
    e.key is None && e.value is Nil
}

/// The number of buckets in use: those with a key and the tombstones.
pub open spec fn occupied(s: Seq<EntryView>) -> nat
    decreases s.len(),
{
    if s.len() == 0 {
        0
    } else {
        occupied(s.drop_last()) + if slot_empty(s.last()) {
            0nat
        } else {
            1nat
        }
    }
}

/// The bucket at which the search for a key starts.
pub open spec fn home(k: StringView, cap: int) -> int {
    (k.hash as int) % cap
}

/// The bucket reached from `start` after `d` steps of linear probing.
pub open spec fn probe(start: int, d: int, cap: int) -> int {
    if start + d < cap {
        start + d
    } else {
        start + d - cap
    }
}

/// The number of probing steps from `start` to bucket `i`.
pub open spec fn distance(start: int, i: int, cap: int) -> int {
    if i >= start {
        i - start
    } else {
        i - start + cap
    }
}

/// The first `d` buckets probed for `k` are all in use and none of them holds `k`.
pub open spec fn chain_ok(s: Seq<EntryView>, k: StringView, d: int) -> bool {
    forall|j: int|
        0 <= j < d ==> !slot_empty(#[trigger] s[probe(home(k, s.len() as int), j, s.len() as int)])
            && s[probe(home(k, s.len() as int), j, s.len() as int)].key != Some(k)
}

/// Every key is found by probing from its home bucket before an empty bucket is met.
pub open spec fn chains_ok(s: Seq<EntryView>) -> bool {
    forall|i: int|
        0 <= i < s.len() && (#[trigger] s[i]).key is Some ==> chain_ok(
            s,
            s[i].key->0,
            distance(home(s[i].key->0, s.len() as int), i, s.len() as int),
        )
}

/// The mapping that a sequence of buckets holds.
pub open spec fn table_map(s: Seq<EntryView>) -> Map<StringView, ValView> {
    Map::new(
        |k: StringView| exists|i: int| 0 <= i < s.len() && (#[trigger] s[i]).key == Some(k),
        |k: StringView| s[choose|i: int| 0 <= i < s.len() && (#[trigger] s[i]).key == Some(k)].value,
    )
}

/// The views of the buckets, in order.
pub open spec fn slot_views(entries: Seq<Entry>) -> Seq<EntryView> {
    entries.map_values(|e: Entry| e@)
}

/// A key stands in one bucket only.
pub proof fn lemma_key_unique(s: Seq<EntryView>, i: int, j: int)
    requires
        chains_ok(s),
        0 <= i < s.len(),
        0 <= j < s.len(),
        s[i].key is Some,
        s[i].key == s[j].key,
    ensures
        i == j,
{
    let k = s[i].key->0;
    let cap = s.len() as int;
    let h = home(k, cap);
    let di = distance(h, i, cap);
    let dj = distance(h, j, cap);
    assert(probe(h, di, cap) == i);
    assert(probe(h, dj, cap) == j);
    if di < dj {
        assert(chain_ok(s, k, dj));
        assert(s[probe(h, di, cap)].key != Some(k));
    } else if dj < di {
        assert(chain_ok(s, k, di));
        assert(s[probe(h, dj, cap)].key != Some(k));
    }
}

/// The mapping holds under a key what the bucket with that key holds.
pub proof fn lemma_map_at(s: Seq<EntryView>, i: int)
    requires
        chains_ok(s),
        0 <= i < s.len(),
        s[i].key is Some,
    ensures
        table_map(s).contains_key(s[i].key->0),
        table_map(s)[s[i].key->0] == s[i].value,
{
    let k = s[i].key->0;
    let j = choose|j: int| 0 <= j < s.len() && (#[trigger] s[j]).key == Some(k);
    lemma_key_unique(s, i, j);
}

/// When every bucket is in use, the number in use is the number of buckets.
pub proof fn lemma_occupied_full(s: Seq<EntryView>)
    requires
        forall|i: int| 0 <= i < s.len() ==> !slot_empty(#[trigger] s[i]),
    ensures
        occupied(s) == s.len(),
    decreases s.len(),
{
    if s.len() > 0 {
        lemma_occupied_full(s.drop_last());
    }
}

/// What a change of one bucket does to the number in use.
pub proof fn lemma_occupied_update(s: Seq<EntryView>, i: int, e: EntryView)
    requires
        0 <= i < s.len(),
    ensures
        occupied(s.update(i, e)) == occupied(s) - (if slot_empty(s[i]) {
            0int
        } else {
            1int
        }) + (if slot_empty(e) {
            0int
        } else {
            1int
        }),
    decreases s.len(),
{
    if i == s.len() - 1 {
        assert(s.update(i, e).drop_last() =~= s.drop_last());
    } else {
        lemma_occupied_update(s.drop_last(), i, e);
        assert(s.update(i, e).drop_last() =~= s.drop_last().update(i, e));
    }
}

/// No bucket of a sequence of empty buckets is in use.
pub proof fn lemma_occupied_none(s: Seq<EntryView>)
    requires
        forall|i: int| 0 <= i < s.len() ==> slot_empty(#[trigger] s[i]),
    ensures
        occupied(s) == 0,
    decreases s.len(),
{
    if s.len() > 0 {
        lemma_occupied_none(s.drop_last());
    }
}

/// Writing a key into the bucket that the search for it ends at keeps the chains and
/// inserts into the mapping.
pub proof fn lemma_insert(s: Seq<EntryView>, idx: int, k: StringView, v: ValView)
    requires
        chains_ok(s),
        0 <= idx < s.len(),
        s[idx].key == Some(k) || (s[idx].key is None && chain_ok(
            s,
            k,
            distance(home(k, s.len() as int), idx, s.len() as int),
        ) && forall|i: int| 0 <= i < s.len() ==> (#[trigger] s[i]).key != Some(k)),
    ensures
        chains_ok(s.update(idx, EntryView { key: Some(k), value: v })),
        table_map(s.update(idx, EntryView { key: Some(k), value: v })) == table_map(s).insert(
            k,
            v,
        ),
{
    let cap = s.len() as int;
    let t = s.update(idx, EntryView { key: Some(k), value: v });
    assert forall|i: int| 0 <= i < t.len() && (#[trigger] t[i]).key is Some implies chain_ok(
        t,
        t[i].key->0,
        distance(home(t[i].key->0, cap), i, cap),
    ) by {
        let q = t[i].key->0;
        let h = home(q, cap);
        let d = distance(h, i, cap);
        if i == idx {
            if s[idx].key == Some(k) {
                assert(chain_ok(s, k, d));
            }
            assert forall|j: int| 0 <= j < d implies !slot_empty(#[trigger] t[probe(h, j, cap)])
                && t[probe(h, j, cap)].key != Some(q) by {
                assert(probe(h, j, cap) != idx);
                assert(!slot_empty(s[probe(h, j, cap)]));
            }
        } else {
            assert(s[i].key is Some);
            assert(chain_ok(s, q, d));
            if q == k {
                if s[idx].key == Some(k) {
                    lemma_key_unique(s, i, idx);
                }
            }
            assert forall|j: int| 0 <= j < d implies !slot_empty(#[trigger] t[probe(h, j, cap)])
                && t[probe(h, j, cap)].key != Some(q) by {
                assert(!slot_empty(s[probe(h, j, cap)]));
            }
        }
    }
    let m1 = table_map(t);
    let m2 = table_map(s).insert(k, v);
    assert forall|q: StringView| m1.contains_key(q) <==> m2.contains_key(q) by {
        if m1.contains_key(q) && q != k {
            let i = choose|i: int| 0 <= i < t.len() && (#[trigger] t[i]).key == Some(q);
            assert(s[i].key == Some(q));
        }
        if m2.contains_key(q) && q != k {
            let i = choose|i: int| 0 <= i < s.len() && (#[trigger] s[i]).key == Some(q);
            assert(i != idx);
            assert(t[i].key == Some(q));
        }
        assert(t[idx].key == Some(k));
    }
    assert forall|q: StringView| m1.contains_key(q) implies m1[q] == m2[q] by {
        let i = choose|i: int| 0 <= i < t.len() && (#[trigger] t[i]).key == Some(q);
        lemma_map_at(t, i);
        if q == k {
            lemma_key_unique(t, i, idx);
        } else {
            assert(i != idx);
            assert(s[i].key == Some(q));
            lemma_map_at(s, i);
        }
    }
    assert(m1 =~= m2);
}

/// Turning the bucket of a key into a tombstone keeps the chains and removes the key.
pub proof fn lemma_delete(s: Seq<EntryView>, idx: int, v: ValView)
    requires
        chains_ok(s),
        0 <= idx < s.len(),
        s[idx].key is Some,
        !(v is Nil),
    ensures
        chains_ok(s.update(idx, EntryView { key: None, value: v })),
        table_map(s.update(idx, EntryView { key: None, value: v })) == table_map(s).remove(
            s[idx].key->0,
        ),
{
    let cap = s.len() as int;
    let k = s[idx].key->0;
    let t = s.update(idx, EntryView { key: None, value: v });
    assert forall|i: int| 0 <= i < t.len() && (#[trigger] t[i]).key is Some implies chain_ok(
        t,
        t[i].key->0,
        distance(home(t[i].key->0, cap), i, cap),
    ) by {
        let q = t[i].key->0;
        let h = home(q, cap);
        let d = distance(h, i, cap);
        assert(s[i].key is Some);
        assert(chain_ok(s, q, d));
        assert forall|j: int| 0 <= j < d implies !slot_empty(#[trigger] t[probe(h, j, cap)])
            && t[probe(h, j, cap)].key != Some(q) by {
            assert(!slot_empty(s[probe(h, j, cap)]));
        }
    }
    let m1 = table_map(t);
    let m2 = table_map(s).remove(k);
    assert forall|q: StringView| m1.contains_key(q) <==> m2.contains_key(q) by {
        if m1.contains_key(q) {
            let i = choose|i: int| 0 <= i < t.len() && (#[trigger] t[i]).key == Some(q);
            assert(s[i].key == Some(q));
            if q == k {
                lemma_key_unique(s, i, idx);
            }
        }
        if m2.contains_key(q) {
            let i = choose|i: int| 0 <= i < s.len() && (#[trigger] s[i]).key == Some(q);
            assert(t[i].key == Some(q));
        }
    }
    assert forall|q: StringView| m1.contains_key(q) implies m1[q] == m2[q] by {
        let i = choose|i: int| 0 <= i < t.len() && (#[trigger] t[i]).key == Some(q);
        lemma_map_at(t, i);
        assert(s[i].key == Some(q));
        lemma_map_at(s, i);
    }
    assert(m1 =~= m2);
}

/// An open-addressed hash table with linear probing and tombstones. `count` is the number
/// of buckets in use, tombstones among them.
#[derive(Debug)]
pub struct Table {
    pub entries: Vec<Entry>,
    pub count: usize,
    pub capacity: usize,
}

impl View for Table {
    type V = Map<StringView, ValView>;

    open spec fn view(&self) -> Map<StringView, ValView> {
        table_map(self.slots())
    }
}

impl Table {
    /// The views of the buckets.
    pub open spec fn slots(&self) -> Seq<EntryView> {
        slot_views(self.entries@)
    }

    /// The invariant of a table: `capacity` buckets of which `count` are in use, a load of
    /// at most three quarters, and every key on an unbroken chain from its home bucket.
    pub open spec fn wf(&self) -> bool {
        &&& self.capacity == self.entries@.len()
        &&& self.count == occupied(self.slots())
        &&& 4 * self.count <= 3 * self.capacity
        &&& chains_ok(self.slots())
    }

    /// A table without buckets.
    pub fn new() -> (r: Self)
        ensures
            r.wf(),
            r@ == Map::<StringView, ValView>::empty(),
            r.capacity == 0,
            r.count == 0,
    {
        let r = Self { entries: Vec::new(), count: 0, capacity: 0 };
        proof {
            assert(r.slots() =~= Seq::empty());
            assert(r@ =~= Map::empty());
        }
        r
    }

    /// The bucket that the search for `key` ends at: the one that holds the key, or else
    /// the first tombstone on the way to the first empty bucket, or else that empty bucket.
    fn find_entry(&self, key: &StringObject) -> (idx: usize)
        requires
            self.wf(),
            self.capacity > 0,
        ensures
            idx < self.capacity,
            self@.contains_key(key@) <==> self.slots()[idx as int].key == Some(key@),
            !self@.contains_key(key@) ==> self.slots()[idx as int].key is None && forall|j: int|
                0 <= j < distance(
                    home(key@, self.capacity as int),
                    idx as int,
                    self.capacity as int,
                ) ==> (#[trigger] self.slots()[probe(
                    home(key@, self.capacity as int),
                    j,
                    self.capacity as int,
                )]).key is Some && self.slots()[probe(
                    home(key@, self.capacity as int),
                    j,
                    self.capacity as int,
                )].key != Some(key@),
    {
        let cap = self.capacity;
        let start: usize = (key.hash as usize) % cap;
        let mut index: usize = start;
        let mut d: usize = 0;
        let mut tombstone: Option<usize> = None;
        let ghost s = self.slots();
        let ghost k = key@;
        let ghost h = home(k, cap as int);
        let ghost dt: int = 0;
        loop
            invariant
                self.wf(),
                cap == self.capacity,
                cap > 0,
                s == self.slots(),
                k == key@,
                h == home(k, cap as int),
                h == start,
                d < cap,
                index == probe(h, d as int, cap as int),
                forall|j: int|
                    0 <= j < d ==> !slot_empty(#[trigger] s[probe(h, j, cap as int)]) && s[probe(
                        h,
                        j,
                        cap as int,
                    )].key != Some(k),
                tombstone is None ==> forall|j: int|
                    0 <= j < d ==> (#[trigger] s[probe(h, j, cap as int)]).key is Some,
                tombstone matches Some(t) ==> 0 <= dt < d && t == probe(h, dt, cap as int)
                    && s[t as int].key is None && forall|j: int|
                    0 <= j < dt ==> (#[trigger] s[probe(h, j, cap as int)]).key is Some,
            decreases cap - d,
        {
            let entry = &self.entries[index];
            assert(s[index as int] == entry@);
            match &entry.key {
                None => {
                    if entry.value.is_nil() {
                        proof {
                            assert forall|i: int| 0 <= i < s.len() implies (#[trigger] s[i]).key
                                != Some(k) by {
                                if s[i].key == Some(k) {
                                    let di = distance(h, i, cap as int);
                                    assert(probe(h, di, cap as int) == i);
                                    assert(chain_ok(s, k, di));
                                    if di > d {
                                        assert(!slot_empty(s[probe(h, d as int, cap as int)]));
                                    }
                                }
                            }
                        }
                        match tombstone {
                            Some(t) => {
                                assert(distance(h, t as int, cap as int) == dt);
                                return t;
                            },
                            None => {
                                assert(distance(h, index as int, cap as int) == d);
                                return index;
                            },
                        }
                    } else if tombstone.is_none() {
                        tombstone = Some(index);
                        proof {
                            dt = d as int;
                        }
                    }
                },
                Some(found) => {
                    if found.same(key) {
                        return index;
                    }
                },
            }
            d += 1;
            if d == cap {
                proof {
                    assert forall|i: int| 0 <= i < s.len() implies !slot_empty(#[trigger] s[i]) by {
                        let di = distance(h, i, cap as int);
                        assert(probe(h, di, cap as int) == i);
                    }
                    lemma_occupied_full(s);
                }
                return index;
            }
            index = if index + 1 == cap {
                0
            } else {
                index + 1
            };
        }
    }

    /// Writes `value` under `key` into the bucket that the search for the key ends at.
    fn place(&mut self, key: StringObject, value: Val) -> (is_new_key: bool)
        requires
            old(self).wf(),
            old(self).capacity > 0,
            4 * (old(self).count + 1) <= 3 * old(self).capacity,
        ensures
            final(self).wf(),
            final(self)@ == old(self)@.insert(key@, value@),
            is_new_key == !old(self)@.contains_key(key@),
            final(self).capacity == old(self).capacity,
            old(self).count <= final(self).count <= old(self).count + 1,
    {
        let idx = self.find_entry(&key);
        let ghost s = self.slots();
        let ghost e = EntryView { key: Some(key@), value: value@ };
        assert(s[idx as int] == self.entries@[idx as int]@);
        let is_new_key = self.entries[idx].key.is_none();
        let fresh = is_new_key && self.entries[idx].value.is_nil();
        proof {
            if is_new_key {
                assert forall|i: int| 0 <= i < s.len() implies (#[trigger] s[i]).key != Some(
                    key@,
                ) by {}
                let h = home(key@, s.len() as int);
                assert forall|j: int| 0 <= j < distance(h, idx as int, s.len() as int) implies
                    !slot_empty(#[trigger] s[probe(h, j, s.len() as int)]) && s[probe(
                    h,
                    j,
                    s.len() as int,
                )].key != Some(key@) by {
                    assert(s[probe(h, j, s.len() as int)].key is Some);
                }
            }
            lemma_insert(s, idx as int, key@, value@);
            lemma_occupied_update(s, idx as int, e);
        }
        if fresh {
            self.count += 1;
        }
        self.entries[idx] = Entry { key: Some(key), value };
        proof {
            assert(self.slots() =~= s.update(idx as int, e));
        }
        is_new_key
    }

    /// Rebuilds the table with `capacity` buckets: the keys are placed anew and the
    /// tombstones are dropped.
    fn adjust_capacity(&mut self, capacity: usize)
        requires
            old(self).wf(),
            capacity >= 1,
            capacity >= old(self).capacity,
        ensures
            final(self).wf(),
            final(self)@ == old(self)@,
            final(self).capacity == capacity,
            final(self).count <= old(self).count,
    {
        let mut rebuilt = Table { entries: Vec::new(), count: 0, capacity };
        let mut n: usize = 0;
        while n < capacity
            invariant
                n <= capacity,
                rebuilt.entries@.len() == n,
                rebuilt.count == 0,
                rebuilt.capacity == capacity,
                forall|i: int| 0 <= i < n ==> slot_empty(#[trigger] rebuilt.slots()[i]),
            decreases capacity - n,
        {
            let ghost before = rebuilt.slots();
            rebuilt.entries.push(Entry::default());
            proof {
                assert(rebuilt.slots() =~= before.push(EntryView { key: None, value: ValView::Nil }));
            }
            n += 1;
        }
        let ghost s = self.slots();
        proof {
            lemma_occupied_none(rebuilt.slots());
            assert(rebuilt@ =~= table_map(s.take(0)));
            lemma_live_bound(s, 0);
        }
        let mut i: usize = 0;
        while i < self.entries.len()
            invariant
                self.wf(),
                s == self.slots(),
                *self == *old(self),
                i <= self.entries@.len(),
                rebuilt.wf(),
                rebuilt.capacity == capacity,
                capacity >= 1,
                capacity >= self.capacity,
                rebuilt.count <= live(s.take(i as int)),
                live(s.take(i as int)) <= i,
                rebuilt@ == table_map(s.take(i as int)),
            decreases self.entries@.len() - i,
        {
            let entry = &self.entries[i];
            assert(s[i as int] == entry@);
            proof {
                lemma_prefix_step(s, i as int);
                lemma_live_bound(s, i + 1);
            }
            match &entry.key {
                Some(key) => {
                    rebuilt.place(key.clone(), entry.value.clone());
                },
                None => {},
            }
            i += 1;
        }
        proof {
            assert(s.take(i as int) =~= s);
            lemma_live_bound(s, s.len() as int);
        }
        *self = rebuilt;
    }

    /// Stores `value` under `key` and says whether the key is new. A table that would be
    /// more than three quarters in use grows first: to 8 buckets, later to twice as many.
    pub fn set_table(&mut self, key: StringObject, value: Val) -> (is_new_key: bool)
        requires
            old(self).wf(),
            old(self).capacity <= usize::MAX / 2,
        ensures
            final(self).wf(),
            final(self)@ == old(self)@.insert(key@, value@),
            is_new_key == !old(self)@.contains_key(key@),
            4 * final(self).count <= 3 * final(self).capacity,
            final(self).count <= old(self).count + 1,
            final(self).capacity == (if 4 * (old(self).count + 1) <= 3 * old(self).capacity {
                old(self).capacity
            } else if old(self).capacity == 0 {
                8usize
            } else {
                (2 * old(self).capacity) as usize
            }),
    {
        let threshold: usize = self.capacity / 4 * 3 + (self.capacity % 4) * 3 / 4;
        assert(4 * (self.count + 1) <= 3 * self.capacity <==> self.count + 1 <= threshold);
        if self.count + 1 > threshold {
            let capacity: usize = if self.capacity == 0 {
                8
            } else {
                self.capacity * 2
            };
            proof {
                lemma_capacity_small(self.slots());
            }
            self.adjust_capacity(capacity);
        }
        self.place(key, value)
    }

    /// Stores every key of `table` with its value.
    pub fn table_add_all(&mut self, table: &Table)
        requires
            old(self).wf(),
            table.wf(),
            old(self).capacity + table.capacity < usize::MAX / 8,
        ensures
            final(self).wf(),
            final(self)@ == old(self)@.union_prefer_right(table@),
    {
        let ghost s = table.slots();
        let mut i: usize = 0;
        proof {
            assert(table_map(s.take(0)) =~= Map::empty());
            assert(self@ =~= self@.union_prefer_right(table_map(s.take(0))));
            lemma_capacity_small(self.slots());
        }
        while i < table.entries.len()
            invariant
                table.wf(),
                s == table.slots(),
                i <= table.entries@.len(),
                self.wf(),
                self.count <= old(self).count + i,
                old(self).count <= old(self).capacity,
                self.capacity <= old(self).capacity || self.capacity == 8 || 3 * self.capacity
                    < 8 * (old(self).count + i + 1),
                old(self).capacity + table.capacity < usize::MAX / 8,
                self@ == old(self)@.union_prefer_right(table_map(s.take(i as int))),
            decreases table.entries@.len() - i,
        {
            let entry = &table.entries[i];
            assert(s[i as int] == entry@);
            proof {
                lemma_prefix_step(s, i as int);
            }
            match &entry.key {
                Some(key) => {
                    self.set_table(key.clone(), entry.value.clone());
                    proof {
                        assert(self@ =~= old(self)@.union_prefer_right(
                            table_map(s.take(i + 1)),
                        ));
                    }
                },
                None => {},
            }
            i += 1;
        }
        proof {
            assert(s.take(i as int) =~= s);
        }
    }

    /// Deletes a key and says whether it was there. Its bucket becomes a tombstone, which
    /// still counts as in use.
    pub fn table_delete(&mut self, key: &StringObject) -> (found: bool)
        requires
            old(self).wf(),
        ensures
            final(self).wf(),
            found == old(self)@.contains_key(key@),
            final(self)@ == old(self)@.remove(key@),
            final(self).count == old(self).count,
            final(self).capacity == old(self).capacity,
    {
        if self.count == 0 {
            proof {
                if self@.contains_key(key@) {
                    let s = self.slots();
                    let i = choose|i: int| 0 <= i < s.len() && (#[trigger] s[i]).key == Some(key@);
                    lemma_occupied_positive(s, i);
                }
                assert(self@ =~= self@.remove(key@));
            }
            return false;
        }
        let idx = self.find_entry(key);
        let ghost s = self.slots();
        assert(s[idx as int] == self.entries@[idx as int]@);
        if self.entries[idx].key.is_none() {
            proof {
                assert(self@ =~= self@.remove(key@));
            }
            return false;
        }
        let ghost e = EntryView { key: None, value: ValView::Boolean(true) };
        proof {
            lemma_delete(s, idx as int, ValView::Boolean(true));
            lemma_occupied_update(s, idx as int, e);
        }
        self.entries[idx] = Entry { key: None, value: Val::boolean(true) };
        proof {
            assert(self.slots() =~= s.update(idx as int, e));
        }
        true
    }

    /// Drops every bucket.
    pub fn free_table(&mut self)
        ensures
            final(self).wf(),
            final(self)@ == Map::<StringView, ValView>::empty(),
            final(self).capacity == 0,
            final(self).count == 0,
    {
        self.entries.clear();
        self.count = 0;
        self.capacity = 0;
        proof {
            assert(self.slots() =~= Seq::empty());
            assert(self@ =~= Map::empty());
        }
    }

    /// Looks a key up.
    pub fn table_get(&self, key: &StringObject) -> (r: Option<Val>)
        requires
            self.wf(),
        ensures
            r is Some <==> self@.contains_key(key@),
            r matches Some(v) ==> v@ == self@[key@],
    {
        if self.count == 0 {
            proof {
                if self@.contains_key(key@) {
                    let s = self.slots();
                    let i = choose|i: int| 0 <= i < s.len() && (#[trigger] s[i]).key == Some(key@);
                    lemma_occupied_update(s, i, s[i]);
                    lemma_occupied_positive(s, i);
                }
            }
            return None;
        }
        let idx = self.find_entry(key);
        let entry = &self.entries[idx];
        assert(self.slots()[idx as int] == entry@);
        if entry.key.is_none() {
            return None;
        }
        proof {
            lemma_map_at(self.slots(), idx as int);
        }
        Some(entry.value.clone())
    }
}

impl Default for Table {
    fn default() -> (r: Self)
        ensures
            r.wf(),
            r@ == Map::<StringView, ValView>::empty(),
            r.capacity == 0,
            r.count == 0,
    {
        Self::new()
    }
}

/// The number of buckets that hold a key.
pub open spec fn live(s: Seq<EntryView>) -> nat
    decreases s.len(),
{
    if s.len() == 0 {
        0
    } else {
        live(s.drop_last()) + if s.last().key is Some {
            1nat
        } else {
            0nat
        }
    }
}

/// The keys of a prefix are no more than its length, nor than the buckets in use.
pub proof fn lemma_live_bound(s: Seq<EntryView>, n: int)
    requires
        0 <= n <= s.len(),
    ensures
        live(s.take(n)) <= n,
        live(s.take(n)) <= occupied(s.take(n)),
        occupied(s.take(n)) <= occupied(s),
    decreases s.len() - n, n,
{
    if n > 0 {
        assert(s.take(n).drop_last() =~= s.take(n - 1));
        lemma_live_bound_prefix(s.take(n));
    }
    if n < s.len() {
        lemma_live_bound(s, n + 1);
        assert(s.take(n + 1).drop_last() =~= s.take(n));
    } else {
        assert(s.take(n) =~= s);
    }
}

/// The keys of a sequence of buckets are no more than its length, nor than the buckets
/// in use.
pub proof fn lemma_live_bound_prefix(s: Seq<EntryView>)
    ensures
        live(s) <= s.len(),
        live(s) <= occupied(s),
    decreases s.len(),
{
    if s.len() > 0 {
        lemma_live_bound_prefix(s.drop_last());
    }
}

/// What one more bucket adds to the mapping of a prefix and to its number of keys.
pub proof fn lemma_prefix_step(s: Seq<EntryView>, i: int)
    requires
        chains_ok(s),
        0 <= i < s.len(),
    ensures
        s[i].key is Some ==> table_map(s.take(i + 1)) == table_map(s.take(i)).insert(
            s[i].key->0,
            s[i].value,
        ) && live(s.take(i + 1)) == live(s.take(i)) + 1,
        s[i].key is None ==> table_map(s.take(i + 1)) == table_map(s.take(i)) && live(
            s.take(i + 1),
        ) == live(s.take(i)),
{
    let a = s.take(i);
    let b = s.take(i + 1);
    assert(b.drop_last() =~= a);
    assert(b.last() == s[i]);
    let m1 = table_map(b);
    let m2 = if s[i].key is Some {
        table_map(a).insert(s[i].key->0, s[i].value)
    } else {
        table_map(a)
    };
    assert forall|q: StringView| m1.contains_key(q) <==> m2.contains_key(q) by {
        if m1.contains_key(q) {
            let j = choose|j: int| 0 <= j < b.len() && (#[trigger] b[j]).key == Some(q);
            if j < i {
                assert(a[j].key == Some(q));
            }
        }
        if m2.contains_key(q) {
            if s[i].key == Some(q) {
                assert(b[i].key == Some(q));
            } else {
                let j = choose|j: int| 0 <= j < a.len() && (#[trigger] a[j]).key == Some(q);
                assert(b[j].key == Some(q));
            }
        }
    }
    assert forall|q: StringView| m1.contains_key(q) implies m1[q] == m2[q] by {
        let j = choose|j: int| 0 <= j < b.len() && (#[trigger] b[j]).key == Some(q);
        assert(s[j].key == Some(q));
        if s[i].key == Some(q) {
            lemma_key_unique(s, i, j);
        } else {
            let j2 = choose|j2: int| 0 <= j2 < a.len() && (#[trigger] a[j2]).key == Some(q);
            assert(a[j].key == Some(q));
            assert(s[j2].key == Some(q));
            lemma_key_unique(s, j, j2);
        }
    }
    assert(m1 =~= m2);
}

/// The number of buckets in use is at most the number of buckets.
pub proof fn lemma_capacity_small(s: Seq<EntryView>)
    ensures
        occupied(s) <= s.len(),
    decreases s.len(),
{
    if s.len() > 0 {
        lemma_capacity_small(s.drop_last());
    }
}

/// A bucket in use makes the number in use positive.
pub proof fn lemma_occupied_positive(s: Seq<EntryView>, i: int)
    requires
        0 <= i < s.len(),
        !slot_empty(s[i]),
    ensures
        occupied(s) > 0,
    decreases s.len(),
{
    if i < s.len() - 1 {
        lemma_occupied_positive(s.drop_last(), i);
    }
}

} // verus!

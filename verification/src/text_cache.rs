//! A bounded, least-recently-used cache of node texts, keyed by node index.

use vstd::prelude::*;

verus! {

/// The entries of a cache: node index and text, least recently used first.
pub type CacheEntries = Seq<(u32, Seq<char>)>;

/// No two entries share a key.
pub open spec fn keys_unique(s: CacheEntries) -> bool {
    forall|i: int, j: int| 0 <= i < j < s.len() ==> #[trigger] s[i].0 != #[trigger] s[j].0
}

/// Index of the first entry with key `id`, or -1.
pub open spec fn position_of(s: CacheEntries, id: u32) -> int
    decreases s.len(),
{
    if s.len() == 0 {
        -1
    } else if s[0].0 == id {
        0
    } else {
        let p = position_of(s.drop_first(), id);
        if p < 0 {
            -1
        } else {
            p + 1
        }
    }
}

/// The text cached for `id`, if any.
pub open spec fn cached(s: CacheEntries, id: u32) -> Option<Seq<char>> {
    let p = position_of(s, id);
    if 0 <= p < s.len() {
        Some(s[p].1)
    } else {
        None
    }
}

/// The entries after a lookup of `id`: a found entry becomes the most recently used.
pub open spec fn after_get(s: CacheEntries, id: u32) -> CacheEntries {
    let p = position_of(s, id);
    if 0 <= p < s.len() {
        s.remove(p).push(s[p])
    } else {
        s
    }
}

/// The entries after storing `value` for `id`: an entry with the same key is
/// replaced; otherwise, in a full cache, the least recently used entry goes.
/// The new entry is the most recently used.
pub open spec fn after_put(s: CacheEntries, capacity: nat, id: u32, value: Seq<char>) -> CacheEntries {
    let p = position_of(s, id);
    if 0 <= p < s.len() {
        s.remove(p).push((id, value))
    } else if s.len() >= capacity && s.len() > 0 {
        s.drop_first().push((id, value))
    } else {
        s.push((id, value))
    }
}

pub proof fn lemma_position_of(s: CacheEntries, id: u32)
    ensures
        -1 <= position_of(s, id) < s.len(),
        position_of(s, id) >= 0 ==> s[position_of(s, id)].0 == id,
        position_of(s, id) >= 0 ==> forall|j: int| 0 <= j < position_of(s, id) ==> s[j].0 != id,
        position_of(s, id) < 0 ==> forall|j: int| 0 <= j < s.len() ==> s[j].0 != id,
    decreases s.len(),
{
    if s.len() > 0 && s[0].0 != id {
        lemma_position_of(s.drop_first(), id);
        let p = position_of(s.drop_first(), id);
        assert forall|j: int| 0 <= j < s.len() && (p < 0 || j < p + 1) implies s[j].0 != id by {
            if j > 0 {
                assert(s[j] == s.drop_first()[j - 1]);
            }
        }
    }
}

pub proof fn lemma_position_is_first(s: CacheEntries, id: u32, i: int)
    requires
        0 <= i < s.len(),
        s[i].0 == id,
        forall|j: int| 0 <= j < i ==> s[j].0 != id,
    ensures
        position_of(s, id) == i,
    decreases s.len(),
{
    if i > 0 {
        assert(s.drop_first()[i - 1] == s[i]);
        lemma_position_is_first(s.drop_first(), id, i - 1);
    }
}

pub proof fn lemma_position_absent(s: CacheEntries, id: u32)
    requires
        forall|j: int| 0 <= j < s.len() ==> s[j].0 != id,
    ensures
        position_of(s, id) == -1,
{
    lemma_position_of(s, id);
    if position_of(s, id) >= 0 {
        assert(s[position_of(s, id)].0 == id);
    }
}

/// A bounded cache of node texts with least-recently-used eviction.
pub struct TextCache {
    entries: Vec<(u32, String)>,
    capacity: usize,
}

impl TextCache {
    /// The entries, least recently used first.
    pub closed spec fn contents(&self) -> CacheEntries {
        self.entries@.map_values(|e: (u32, String)| (e.0, e.1@))
    }

    /// The most entries the cache holds.
    pub closed spec fn max_entries(&self) -> nat {
        self.capacity as nat
    }

    /// The cache is within its positive capacity and holds each key once.
    pub closed spec fn wf(&self) -> bool {
        &&& 0 < self.capacity
        &&& self.entries@.len() <= self.capacity
        &&& keys_unique(self.contents())
    }

    /// What well-formedness says of a cache: a positive limit, no more entries
    /// than it, and each key once.
    pub proof fn lemma_wf(&self)
        requires
            self.wf(),
        ensures
            0 < self.max_entries(),
            self.contents().len() <= self.max_entries(),
            keys_unique(self.contents()),
    {
    }

    /// An empty cache that holds at most `capacity` entries.
    pub fn new(capacity: usize) -> (cache: Self)
        requires
            capacity > 0,
        ensures
            cache.wf(),
            cache.contents() == Seq::<(u32, Seq<char>)>::empty(),
            cache.max_entries() == capacity,
    {
        let cache = TextCache { entries: Vec::with_capacity(capacity), capacity };
        assert(cache.contents() =~= Seq::<(u32, Seq<char>)>::empty());
        cache
    }

    /// Index of the entry with key `id`.
    fn position(&self, id: u32) -> (res: Option<usize>)
        ensures
            match res {
                Some(i) => position_of(self.contents(), id) == i as int,
                None => position_of(self.contents(), id) == -1,
            },
    {
        let mut i: usize = 0;
        while i < self.entries.len()
            invariant
                i <= self.entries@.len(),
                forall|j: int| 0 <= j < i ==> #[trigger] self.contents()[j].0 != id,
            decreases self.entries@.len() - i,
        {
            if self.entries[i].0 == id {
                proof {
                    lemma_position_is_first(self.contents(), id, i as int);
                }
                return Some(i);
            }
            i = i + 1;
        }
        proof {
            lemma_position_absent(self.contents(), id);
        }
        None
    }

    /// The text cached for `id`, which becomes the most recently used entry.
    pub fn get(&mut self, id: u32) -> (res: Option<String>)
        requires
            old(self).wf(),
        ensures
            final(self).wf(),
            match res {
                Some(v) => cached(old(self).contents(), id) == Some(v@),
                None => cached(old(self).contents(), id) is None,
            },
            final(self).contents() == after_get(old(self).contents(), id),
            final(self).max_entries() == old(self).max_entries(),
    {
        proof {
            lemma_position_of(self.contents(), id);
        }
        let index = match self.position(id) {
            Some(i) => i,
            None => {
                return None;
            },
        };
        let ghost before = self.contents();
        let (key, value) = self.entries.remove(index);
        let cloned = value.clone();
        self.entries.push((key, value));
        proof {
            assert(self.contents() =~= before.remove(index as int).push(before[index as int]));
            lemma_unique_after_get(before, id);
        }
        Some(cloned)
    }

    /// Stores `value` for `id` (see `after_put`).
    pub fn put(&mut self, id: u32, value: String)
        requires
            old(self).wf(),
        ensures
            final(self).wf(),
            final(self).contents() == after_put(
                old(self).contents(),
                old(self).max_entries(),
                id,
                value@,
            ),
            final(self).max_entries() == old(self).max_entries(),
    {
        proof {
            lemma_position_of(self.contents(), id);
        }
        let ghost before = self.contents();
        let ghost v = value@;
        match self.position(id) {
            Some(index) => {
                self.entries.remove(index);
            },
            None => {
                if self.entries.len() == self.capacity {
                    self.entries.remove(0);
                }
            },
        }
        self.entries.push((id, value));
        proof {
            law_put_keeps_capacity_and_keys(before, self.capacity as nat, id, v);
            let p = position_of(before, id);
            if 0 <= p < before.len() {
                assert(self.contents() =~= before.remove(p).push((id, v)));
            } else if before.len() >= self.capacity {
                assert(self.contents() =~= before.drop_first().push((id, v)));
            } else {
                assert(self.contents() =~= before.push((id, v)));
            }
        }
    }
}

pub proof fn lemma_unique_after_get(s: CacheEntries, id: u32)
    requires
        keys_unique(s),
    ensures
        keys_unique(after_get(s, id)),
{
    lemma_position_of(s, id);
    let p = position_of(s, id);
    if 0 <= p < s.len() {
        let r = s.remove(p).push(s[p]);
        assert forall|i: int, j: int| 0 <= i < j < r.len() implies #[trigger] r[i].0 != #[trigger] r[j].0 by {
            let oi = if i < p { i } else { i + 1 };
            let oj = if j == r.len() - 1 { p } else if j < p { j } else { j + 1 };
            assert(r[i] == s[oi]);
            assert(r[j] == s[oj]);
            assert(oi != oj);
            if oi < oj {
                assert(s[oi].0 != s[oj].0);
            } else {
                assert(s[oj].0 != s[oi].0);
            }
        }
    }
}

/// Storing keeps the cache within its capacity and each key in it once.
pub proof fn law_put_keeps_capacity_and_keys(s: CacheEntries, capacity: nat, id: u32, value: Seq<char>)
    requires
        0 < capacity,
        s.len() <= capacity,
        keys_unique(s),
    ensures
        after_put(s, capacity, id, value).len() <= capacity,
        keys_unique(after_put(s, capacity, id, value)),
{
    lemma_position_of(s, id);
    let p = position_of(s, id);
    let r = after_put(s, capacity, id, value);
    let base = if 0 <= p < s.len() {
        s.remove(p)
    } else if s.len() >= capacity && s.len() > 0 {
        s.drop_first()
    } else {
        s
    };
    assert(r =~= base.push((id, value)));
    assert forall|i: int| 0 <= i < base.len() implies #[trigger] base[i].0 != id by {
        if 0 <= p < s.len() {
            let oi = if i < p { i } else { i + 1 };
            assert(base[i] == s[oi]);
            assert(s[p].0 == id);
            if oi < p {
                assert(s[oi].0 != s[p].0);
            } else {
                assert(s[p].0 != s[oi].0);
            }
        } else if s.len() >= capacity && s.len() > 0 {
            assert(base[i] == s[i + 1]);
        }
    }
    assert forall|i: int, j: int| 0 <= i < j < r.len() implies #[trigger] r[i].0 != #[trigger] r[j].0 by {
        if j == r.len() - 1 {
            assert(r[i] == base[i]);
        } else {
            if 0 <= p < s.len() {
                let oi = if i < p { i } else { i + 1 };
                let oj = if j < p { j } else { j + 1 };
                assert(r[i] == s[oi]);
                assert(r[j] == s[oj]);
            } else if s.len() >= capacity && s.len() > 0 {
                assert(r[i] == s[i + 1]);
                assert(r[j] == s[j + 1]);
            } else {
                assert(r[i] == s[i]);
                assert(r[j] == s[j]);
            }
        }
    }
}

} // verus!

verus! {

proof fn lemma_cached_at(s: CacheEntries, k: u32, i: int)
    requires
        keys_unique(s),
        0 <= i < s.len(),
        s[i].0 == k,
    ensures
        cached(s, k) == Some(s[i].1),
{
    assert forall|j: int| 0 <= j < i implies s[j].0 != k by {
        assert(s[j].0 != s[i].0);
    }
    lemma_position_is_first(s, k, i);
}

proof fn lemma_cached_absent(s: CacheEntries, k: u32)
    requires
        forall|j: int| 0 <= j < s.len() ==> s[j].0 != k,
    ensures
        cached(s, k) is None,
{
    lemma_position_absent(s, k);
}

/// Reading after writing: once `value` is stored for `id`, a lookup of `id`
/// finds `value`.
pub proof fn law_get_after_put(s: CacheEntries, capacity: nat, id: u32, value: Seq<char>)
    requires
        0 < capacity,
        s.len() <= capacity,
        keys_unique(s),
    ensures
        cached(after_put(s, capacity, id, value), id) == Some(value),
{
    law_put_keeps_capacity_and_keys(s, capacity, id, value);
    let r = after_put(s, capacity, id, value);
    lemma_cached_at(r, id, r.len() - 1);
}

/// A lookup changes only the order of the entries: every key keeps the text
/// cached for it.
pub proof fn law_get_keeps_contents(s: CacheEntries, id: u32, k: u32)
    requires
        keys_unique(s),
    ensures
        cached(after_get(s, id), k) == cached(s, k),
        after_get(s, id).len() == s.len(),
{
    lemma_position_of(s, id);
    lemma_unique_after_get(s, id);
    let p = position_of(s, id);
    if 0 <= p < s.len() {
        let r = after_get(s, id);
        if exists|i: int| 0 <= i < s.len() && s[i].0 == k {
            let i = choose|i: int| 0 <= i < s.len() && s[i].0 == k;
            lemma_cached_at(s, k, i);
            let ri = if i == p { r.len() - 1 } else if i < p { i } else { i - 1 };
            assert(r[ri] == s[i]);
            lemma_cached_at(r, k, ri);
        } else {
            assert forall|j: int| 0 <= j < r.len() implies r[j].0 != k by {
                let oj = if j == r.len() - 1 { p } else if j < p { j } else { j + 1 };
                assert(r[j] == s[oj]);
            }
            lemma_cached_absent(s, k);
            lemma_cached_absent(r, k);
        }
    }
}

/// Storing for `id` leaves the text of every other key as it was, except the
/// least recently used key, which a store of a new key into a full cache
/// evicts.
pub proof fn law_put_keeps_others(s: CacheEntries, capacity: nat, id: u32, value: Seq<char>, k: u32)
    requires
        0 < capacity,
        s.len() <= capacity,
        keys_unique(s),
        k != id,
    ensures
        (position_of(s, id) < 0 && s.len() == capacity && s[0].0 == k) ==> cached(
            after_put(s, capacity, id, value),
            k,
        ) is None,
        !(position_of(s, id) < 0 && s.len() == capacity && s[0].0 == k) ==> cached(
            after_put(s, capacity, id, value),
            k,
        ) == cached(s, k),
{
    lemma_position_of(s, id);
    law_put_keeps_capacity_and_keys(s, capacity, id, value);
    let p = position_of(s, id);
    let r = after_put(s, capacity, id, value);
    let evicting = !(0 <= p < s.len()) && s.len() >= capacity && s.len() > 0;
    // the index in `s` of the entry at index `j` of `r`, below the new last entry
    let from = |j: int| if 0 <= p < s.len() { if j < p { j } else { j + 1 } } else if evicting { j + 1 } else { j };
    assert forall|j: int| 0 <= j < r.len() - 1 implies r[j] == s[from(j)] by {}
    if exists|i: int| 0 <= i < s.len() && s[i].0 == k {
        let i = choose|i: int| 0 <= i < s.len() && s[i].0 == k;
        lemma_cached_at(s, k, i);
        if evicting && i == 0 {
            assert forall|j: int| 0 <= j < r.len() implies r[j].0 != k by {
                if j < r.len() - 1 {
                    assert(s[0].0 != s[j + 1].0);
                }
            }
            lemma_cached_absent(r, k);
        } else {
            let ri = if 0 <= p < s.len() { if i < p { i } else { i - 1 } } else if evicting { i - 1 } else { i };
            assert(i != p);
            assert(r[ri] == s[i]);
            lemma_cached_at(r, k, ri);
        }
    } else {
        lemma_cached_absent(s, k);
        assert forall|j: int| 0 <= j < r.len() implies r[j].0 != k by {
            if j < r.len() - 1 {
                assert(r[j] == s[from(j)]);
            }
        }
        lemma_cached_absent(r, k);
    }
}

} // verus!

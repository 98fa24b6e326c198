//! An ordered associative structure from `Price` keys to values, backed by
//! a vector kept strictly sorted by price.
//!
//! Both sides of the order book and both sides of the depth cache are
//! instances of this structure. Keeping the keys sorted makes the best-price
//! queries boundary lookups instead of scans. Abstractly, a `PriceIndex<V>`
//! is a finite `Map<Price, V>`.

use vstd::prelude::*;

use crate::types::Price;

verus! {

/// One key/value entry of a `PriceIndex`.
#[derive(Debug, PartialEq, Eq)]
pub struct IndexEntry<V> {
    price: Price,
    value: V,
}

/// A price-keyed ordered mapping, abstractly a `Map<Price, V>`.
///
/// The entries are kept strictly sorted by price, so the least and
/// greatest keys sit at the two ends of the backing vector.
#[derive(Debug, PartialEq, Eq)]
pub struct PriceIndex<V> {
    entries: Vec<IndexEntry<V>>,
}

/// The mapping described by a sequence of entries; a later entry wins,
/// though well-formed sequences never repeat a price.
spec fn entries_map<V>(s: Seq<IndexEntry<V>>) -> Map<Price, V>
    decreases s.len(),
{
    if s.len() == 0 {
        Map::empty()
    } else {
        entries_map(s.drop_last()).insert(s.last().price, s.last().value)
    }
}

/// Prices strictly increase along the sequence of entries.
spec fn entries_sorted<V>(s: Seq<IndexEntry<V>>) -> bool {
    forall|i: int, j: int|
        0 <= i < j < s.len() ==> s[i].price.ticks < s[j].price.ticks
}

impl<V> View for PriceIndex<V> {
    type V = Map<Price, V>;

    closed spec fn view(&self) -> Map<Price, V> {
        entries_map(self.entries@)
    }
}

proof fn lemma_sorted_drop_last<V>(s: Seq<IndexEntry<V>>)
    requires
        entries_sorted(s),
        s.len() > 0,
    ensures
        entries_sorted(s.drop_last()),
{
    assert forall|i: int, j: int|
        0 <= i < j < s.drop_last().len() implies s.drop_last()[i].price.ticks
        < s.drop_last()[j].price.ticks by {
        assert(s.drop_last()[i] == s[i]);
        assert(s.drop_last()[j] == s[j]);
    }
}

/// A price is in the mapping exactly when some entry carries it.
proof fn lemma_map_contains<V>(s: Seq<IndexEntry<V>>, p: Price)
    ensures
        entries_map(s).dom().contains(p) <==> (exists|i: int|
            0 <= i < s.len() && s[i].price == p),
    decreases s.len(),
{
    if s.len() > 0 {
        lemma_map_contains(s.drop_last(), p);
        if s.last().price == p {
            assert(0 <= s.len() - 1 < s.len() && s[s.len() - 1].price == p);
        } else {
            if exists|i: int| 0 <= i < s.len() && s[i].price == p {
                let i = choose|i: int| 0 <= i < s.len() && s[i].price == p;
                assert(s.drop_last()[i] == s[i]);
                assert(0 <= i < s.drop_last().len() && s.drop_last()[i].price == p);
            }
            if exists|i: int| 0 <= i < s.drop_last().len() && s.drop_last()[i].price == p {
                let i = choose|i: int|
                    0 <= i < s.drop_last().len() && s.drop_last()[i].price == p;
                assert(s[i] == s.drop_last()[i]);
            }
        }
    }
}

/// In a sorted sequence, each entry's price maps to that entry's value.
proof fn lemma_map_at<V>(s: Seq<IndexEntry<V>>, i: int)
    requires
        entries_sorted(s),
        0 <= i < s.len(),
    ensures
        entries_map(s).dom().contains(s[i].price),
        entries_map(s)[s[i].price] == s[i].value,
    decreases s.len(),
{
    if i < s.len() - 1 {
        lemma_sorted_drop_last(s);
        lemma_map_at(s.drop_last(), i);
        assert(s.drop_last()[i] == s[i]);
        assert(s[i].price.ticks < s[s.len() - 1].price.ticks);
    }
}

/// A sorted sequence has as many entries as its mapping has keys.
proof fn lemma_map_len<V>(s: Seq<IndexEntry<V>>)
    requires
        entries_sorted(s),
    ensures
        entries_map(s).dom().finite(),
        entries_map(s).dom().len() == s.len(),
    decreases s.len(),
{
    if s.len() > 0 {
        lemma_sorted_drop_last(s);
        lemma_map_len(s.drop_last());
        lemma_map_contains(s.drop_last(), s.last().price);
        assert forall|i: int|
            0 <= i < s.drop_last().len() implies s.drop_last()[i].price
            != s.last().price by {
            assert(s.drop_last()[i] == s[i]);
            assert(s[i].price.ticks < s[s.len() - 1].price.ticks);
        }
        assert(!entries_map(s.drop_last()).dom().contains(s.last().price));
        assert(entries_map(s).dom() =~= entries_map(s.drop_last()).dom().insert(
            s.last().price,
        ));
    }
}

/// Replacing the entry at a price rewrites exactly that key of the mapping.
proof fn lemma_map_update<V>(s: Seq<IndexEntry<V>>, i: int, e: IndexEntry<V>)
    requires
        entries_sorted(s),
        0 <= i < s.len(),
        e.price == s[i].price,
    ensures
        entries_map(s.update(i, e)) == entries_map(s).insert(e.price, e.value),
    decreases s.len(),
{
    let t = s.update(i, e);
    if i == s.len() - 1 {
        assert(t.drop_last() =~= s.drop_last());
        assert(t.last() == e);
        assert(entries_map(t) =~= entries_map(s).insert(e.price, e.value));
    } else {
        lemma_sorted_drop_last(s);
        lemma_map_update(s.drop_last(), i, e);
        assert(t.drop_last() =~= s.drop_last().update(i, e));
        assert(t.last() == s.last());
        assert(s[i].price.ticks < s[s.len() - 1].price.ticks);
        assert(entries_map(t) =~= entries_map(s).insert(e.price, e.value));
    }
}

/// Inserting an entry at a fresh price adds exactly that key to the mapping.
proof fn lemma_map_insert<V>(s: Seq<IndexEntry<V>>, k: int, e: IndexEntry<V>)
    requires
        0 <= k <= s.len(),
        forall|i: int| 0 <= i < s.len() ==> s[i].price != e.price,
    ensures
        entries_map(s.insert(k, e)) == entries_map(s).insert(e.price, e.value),
    decreases s.len(),
{
    let t = s.insert(k, e);
    if k == s.len() {
        assert(t.drop_last() =~= s);
        assert(t.last() == e);
    } else {
        assert(t.last() == s.last());
        assert(t.drop_last() =~= s.drop_last().insert(k, e));
        assert forall|i: int|
            0 <= i < s.drop_last().len() implies s.drop_last()[i].price != e.price by {
            assert(s.drop_last()[i] == s[i]);
        }
        lemma_map_insert(s.drop_last(), k, e);
        assert(s[s.len() - 1].price != e.price);
        assert(entries_map(t) =~= entries_map(s).insert(e.price, e.value));
    }
}

impl<V> PriceIndex<V> {
    #[verifier::type_invariant]
    spec fn well_formed(self) -> bool {
        entries_sorted(self.entries@)
    }

    /// Creates an empty mapping.
    pub fn new() -> (r: Self)
        ensures
            r@ == Map::<Price, V>::empty(),
    {
        PriceIndex { entries: Vec::new() }
    }

    /// The least position whose entry's price is not below `price`;
    /// `entries.len()` if every entry's price is below it.
    fn position_of(&self, price: Price) -> (r: usize)
        ensures
            r <= self.entries@.len(),
            forall|i: int| 0 <= i < r ==> self.entries@[i].price.ticks < price.ticks,
            r < self.entries@.len() ==> self.entries@[r as int].price.ticks >= price.ticks,
    {
        let mut i: usize = 0;
        while i < self.entries.len()
            invariant
                i <= self.entries@.len(),
                forall|j: int| 0 <= j < i ==> self.entries@[j].price.ticks < price.ticks,
            decreases self.entries@.len() - i,
        {
            if self.entries[i].price.ticks >= price.ticks {
                return i;
            }
            i = i + 1;
        }
        i
    }

    /// Looks the price up, returning a reference to its value if present.
    pub fn get(&self, price: Price) -> (r: Option<&V>)
        ensures
            match r {
                Some(v) => self@.dom().contains(price) && *v == self@[price],
                None => !self@.dom().contains(price),
            },
    {
        proof {
            use_type_invariant(&*self);
            lemma_map_contains(self.entries@, price);
        }
        let idx = self.position_of(price);
        if idx < self.entries.len() {
            let e = &self.entries[idx];
            if e.price.ticks == price.ticks {
                proof {
                    assert(e.price == price);
                    lemma_map_at(self.entries@, idx as int);
                }
                return Some(&e.value);
            }
        }
        proof {
            assert forall|i: int|
                0 <= i < self.entries@.len() implies self.entries@[i].price != price by {
                if i >= idx {
                    assert(self.entries@[idx as int].price.ticks
                        <= self.entries@[i].price.ticks);
                }
            }
        }
        None
    }

    /// Maps the price to the value, returning the value it replaced.
    pub fn put(&mut self, price: Price, value: V) -> (prev: Option<V>)
        ensures
            final(self)@ == old(self)@.insert(price, value),
            prev == (if old(self)@.dom().contains(price) {
                Some(old(self)@[price])
            } else {
                None::<V>
            }),
    {
        proof {
            use_type_invariant(&*self);
            lemma_map_contains(self.entries@, price);
        }
        let ghost s = self.entries@;
        let idx = self.position_of(price);
        let found = idx < self.entries.len() && self.entries[idx].price.ticks == price.ticks;
        let mut entries: Vec<IndexEntry<V>> = Vec::new();
        std::mem::swap(&mut entries, &mut self.entries);
        let prev: Option<V>;
        if found {
            proof {
                assert(s[idx as int].price == price);
                lemma_map_at(s, idx as int);
            }
            let old_entry = entries.remove(idx);
            entries.insert(idx, IndexEntry { price, value });
            proof {
                assert(entries@ =~= s.update(idx as int, IndexEntry { price, value }));
                assert forall|i: int, j: int|
                    0 <= i < j < entries@.len() implies entries@[i].price.ticks
                    < entries@[j].price.ticks by {
                    assert(s[i].price.ticks < s[j].price.ticks);
                }
                lemma_map_update(s, idx as int, IndexEntry { price, value });
            }
            prev = Some(old_entry.value);
        } else {
            proof {
                assert forall|i: int|
                    0 <= i < s.len() implies s[i].price != price by {
                    if i >= idx {
                        assert(s[idx as int].price.ticks <= s[i].price.ticks);
                    }
                }
            }
            entries.insert(idx, IndexEntry { price, value });
            proof {
                let t = s.insert(idx as int, IndexEntry { price, value });
                assert(idx < s.len() ==> s[idx as int].price.ticks > price.ticks);
                assert forall|i: int, j: int|
                    0 <= i < j < t.len() implies t[i].price.ticks < t[j].price.ticks by {
                    if i < idx && j > idx {
                        assert(t[i] == s[i]);
                        assert(t[j] == s[j - 1]);
                        assert(s[idx as int].price.ticks <= s[j - 1].price.ticks);
                    } else if j == idx {
                        assert(t[i] == s[i]);
                    } else if i == idx {
                        assert(t[j] == s[j - 1]);
                        assert(s[idx as int].price.ticks <= s[j - 1].price.ticks);
                    } else if j < idx {
                        assert(t[i] == s[i]);
                        assert(t[j] == s[j]);
                    } else {
                        assert(t[i] == s[i - 1]);
                        assert(t[j] == s[j - 1]);
                    }
                }
                lemma_map_insert(s, idx as int, IndexEntry { price, value });
            }
            prev = None;
        }
        self.entries = entries;
        prev
    }

    /// The number of distinct prices in the mapping.
    pub fn len(&self) -> (r: usize)
        ensures
            self@.dom().finite(),
            r == self@.dom().len(),
    {
        proof {
            use_type_invariant(&*self);
            lemma_map_len(self.entries@);
        }
        self.entries.len()
    }

    /// The least price present, or `None` if the mapping is empty.
    pub fn min_price(&self) -> (r: Option<Price>)
        ensures
            match r {
                Some(p) => self@.dom().contains(p) && forall|q: Price|
                    self@.dom().contains(q) ==> p.ticks <= q.ticks,
                None => self@ == Map::<Price, V>::empty(),
            },
    {
        proof {
            use_type_invariant(&*self);
        }
        if self.entries.len() == 0 {
            proof {
                assert(self@ =~= Map::<Price, V>::empty());
            }
            None
        } else {
            let p = self.entries[0].price;
            proof {
                lemma_map_at(self.entries@, 0);
                assert forall|q: Price|
                    self@.dom().contains(q) implies p.ticks <= q.ticks by {
                    lemma_map_contains(self.entries@, q);
                    let i = choose|i: int|
                        0 <= i < self.entries@.len() && self.entries@[i].price == q;
                    assert(i > 0 ==> self.entries@[0].price.ticks
                        < self.entries@[i].price.ticks);
                }
            }
            Some(p)
        }
    }

    /// The greatest price present, or `None` if the mapping is empty.
    pub fn max_price(&self) -> (r: Option<Price>)
        ensures
            match r {
                Some(p) => self@.dom().contains(p) && forall|q: Price|
                    self@.dom().contains(q) ==> p.ticks >= q.ticks,
                None => self@ == Map::<Price, V>::empty(),
            },
    {
        proof {
            use_type_invariant(&*self);
        }
        if self.entries.len() == 0 {
            proof {
                assert(self@ =~= Map::<Price, V>::empty());
            }
            None
        } else {
            let last = self.entries.len() - 1;
            let p = self.entries[last].price;
            proof {
                lemma_map_at(self.entries@, last as int);
                assert forall|q: Price|
                    self@.dom().contains(q) implies p.ticks >= q.ticks by {
                    lemma_map_contains(self.entries@, q);
                    let i = choose|i: int|
                        0 <= i < self.entries@.len() && self.entries@[i].price == q;
                    assert(i < last ==> self.entries@[i].price.ticks
                        < self.entries@[last as int].price.ticks);
                }
            }
            Some(p)
        }
    }

    /// Empties the mapping.
    pub fn clear(&mut self)
        ensures
            final(self)@ == Map::<Price, V>::empty(),
    {
        self.entries = Vec::new();
        proof {
            assert(self@ =~= Map::<Price, V>::empty());
        }
    }
}

impl<V: Copy> PriceIndex<V> {
    /// An independent copy of the mapping, safe to read after the call
    /// regardless of later changes to the original.
    pub fn duplicate(&self) -> (r: Self)
        ensures
            r@ == self@,
    {
        proof {
            use_type_invariant(&*self);
        }
        let mut entries: Vec<IndexEntry<V>> = Vec::new();
        let mut i: usize = 0;
        while i < self.entries.len()
            invariant
                i <= self.entries@.len(),
                entries@ =~= self.entries@.subrange(0, i as int),
            decreases self.entries@.len() - i,
        {
            let e = &self.entries[i];
            entries.push(IndexEntry { price: e.price, value: e.value });
            i = i + 1;
        }
        proof {
            assert(entries@ =~= self.entries@);
        }
        PriceIndex { entries }
    }
}

} // verus!

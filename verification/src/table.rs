//! An ordered collection that holds at most one item of each key.

use vstd::prelude::*;

use crate::order::{
    rank_before, rank_before_is_total, rank_before_is_transitive, rank_comparison, Comparison,
};

verus! {

/// An item that carries its own key.
pub trait Keyed: View + Sized {
    /// What an item is looked up by.
    type Key;

    /// The place of an item in the order of the table.
    spec fn rank(item: Self::V) -> Seq<Seq<int>>;

    /// The place of a key in the order of the table.
    spec fn key_rank(key: &Self::Key) -> Seq<Seq<int>>;

    /// How this item stands to another.
    fn compare(&self, other: &Self) -> (comparison: Comparison)
        ensures
            comparison == rank_comparison(Self::rank(self@), Self::rank(other@)),
    ;

    /// How this item stands to a key.
    fn compare_to_key(&self, key: &Self::Key) -> (comparison: Comparison)
        ensures
            comparison == rank_comparison(Self::rank(self@), Self::key_rank(key)),
    ;
}

/// The items stand in strictly ascending order, so that no key occurs twice.
pub open spec fn ascending<T: Keyed>(s: Seq<T::V>) -> bool {
    forall|i: int, j: int|
        0 <= i < j < s.len() ==> rank_before(#[trigger] T::rank(s[i]), #[trigger] T::rank(s[j]))
}

/// The position of the first item that does not come before `r`.
pub open spec fn slot<T: Keyed>(s: Seq<T::V>, r: Seq<Seq<int>>) -> int
    decreases s.len(),
{
    if s.len() > 0 && rank_before(T::rank(s[0]), r) {
        1 + slot::<T>(s.drop_first(), r)
    } else {
        0
    }
}

/// The item with rank `r`, if there is one.
pub open spec fn lookup<T: Keyed>(s: Seq<T::V>, r: Seq<Seq<int>>) -> Option<T::V> {
    let p = slot::<T>(s, r);
    if p < s.len() && T::rank(s[p]) == r {
        Some(s[p])
    } else {
        None
    }
}

/// The table after `item` took its place: over the item with the same key, or between its
/// neighbours.
pub open spec fn placed<T: Keyed>(s: Seq<T::V>, item: T::V) -> Seq<T::V> {
    let p = slot::<T>(s, T::rank(item));
    if p < s.len() && T::rank(s[p]) == T::rank(item) {
        s.update(p, item)
    } else {
        s.insert(p, item)
    }
}

/// The slot parts the items before `r` from the others, wherever that boundary lies.
pub proof fn lemma_slot_is<T: Keyed>(s: Seq<T::V>, r: Seq<Seq<int>>, p: int)
    requires
        0 <= p <= s.len(),
        forall|i: int| 0 <= i < p ==> rank_before(#[trigger] T::rank(s[i]), r),
        p < s.len() ==> !rank_before(T::rank(s[p]), r),
    ensures
        slot::<T>(s, r) == p,
    decreases p,
{
    if p > 0 {
        assert(rank_before(T::rank(s[0]), r));
        let t = s.drop_first();
        assert forall|i: int| 0 <= i < p - 1 implies rank_before(#[trigger] T::rank(t[i]), r) by {
            assert(t[i] == s[i + 1]);
        }
        if p < s.len() {
            assert(t[p - 1] == s[p]);
        }
        lemma_slot_is::<T>(t, r, p - 1);
    }
}

/// Everything in front of the slot comes before `r`, and the item in it does not.
pub proof fn lemma_slot_bounds<T: Keyed>(s: Seq<T::V>, r: Seq<Seq<int>>)
    ensures
        0 <= slot::<T>(s, r) <= s.len(),
        forall|i: int| 0 <= i < slot::<T>(s, r) ==> rank_before(#[trigger] T::rank(s[i]), r),
        slot::<T>(s, r) < s.len() ==> !rank_before(T::rank(s[slot::<T>(s, r)]), r),
    decreases s.len(),
{
    if s.len() > 0 && rank_before(T::rank(s[0]), r) {
        let t = s.drop_first();
        lemma_slot_bounds::<T>(t, r);
        let p = slot::<T>(s, r);
        assert forall|i: int| 0 <= i < p implies rank_before(#[trigger] T::rank(s[i]), r) by {
            if i > 0 {
                assert(s[i] == t[i - 1]);
            }
        }
        if p < s.len() {
            assert(s[p] == t[p - 1]);
        }
    }
}

/// In an ascending table an item is found by its rank, and what is found is in the table.
pub proof fn lemma_lookup_finds_items<T: Keyed>(s: Seq<T::V>, i: int)
    requires
        ascending::<T>(s),
        0 <= i < s.len(),
    ensures
        slot::<T>(s, T::rank(s[i])) == i,
        lookup::<T>(s, T::rank(s[i])) == Some(s[i]),
{
    rank_before_is_total(T::rank(s[i]), T::rank(s[i]));
    lemma_slot_is::<T>(s, T::rank(s[i]), i);
}

/// Placing an item keeps a table in order.
pub proof fn lemma_placed_is_ascending<T: Keyed>(s: Seq<T::V>, item: T::V)
    requires
        ascending::<T>(s),
    ensures
        ascending::<T>(placed::<T>(s, item)),
{
    let r = T::rank(item);
    let p = slot::<T>(s, r);
    let t = placed::<T>(s, item);
    lemma_slot_bounds::<T>(s, r);
    assert forall|i: int, j: int| 0 <= i < j < t.len() implies rank_before(
        #[trigger] T::rank(t[i]),
        #[trigger] T::rank(t[j]),
    ) by {
        if p < s.len() && T::rank(s[p]) == r {
            assert(T::rank(t[i]) == T::rank(s[i]));
            assert(T::rank(t[j]) == T::rank(s[j]));
        } else {
            if p < s.len() {
                rank_before_is_total(T::rank(s[p]), r);
            }
            if j < p {
                assert(t[i] == s[i] && t[j] == s[j]);
            } else if j == p {
                assert(t[i] == s[i]);
            } else if i > p {
                assert(t[i] == s[i - 1] && t[j] == s[j - 1]);
            } else {
                assert(t[j] == s[j - 1]);
                assert(rank_before(r, T::rank(s[p])));
                if j - 1 > p {
                    assert(rank_before(T::rank(s[p]), T::rank(s[j - 1])));
                    rank_before_is_transitive(r, T::rank(s[p]), T::rank(s[j - 1]));
                }
                if i < p {
                    assert(t[i] == s[i]);
                    rank_before_is_transitive(T::rank(s[i]), r, T::rank(s[j - 1]));
                }
            }
        }
    }
}

/// Placing an item adds nothing else to a table.
pub proof fn lemma_placed_holds<T: Keyed>(s: Seq<T::V>, item: T::V)
    ensures
        placed::<T>(s, item).contains(item),
        forall|i: int|
            0 <= i < placed::<T>(s, item).len() ==> #[trigger] placed::<T>(s, item)[i] == item
                || s.contains(placed::<T>(s, item)[i]),
{
    let p = slot::<T>(s, T::rank(item));
    let t = placed::<T>(s, item);
    lemma_slot_bounds::<T>(s, T::rank(item));
    assert(t[p] == item);
    assert forall|i: int| 0 <= i < t.len() implies #[trigger] t[i] == item || s.contains(t[i]) by {
        if p < s.len() && T::rank(s[p]) == T::rank(item) {
            if i != p {
                assert(t[i] == s[i]);
            }
        } else if i < p {
            assert(t[i] == s[i]);
        } else if i > p {
            assert(t[i] == s[i - 1]);
        }
    }
}

/// In an ascending table nothing but the item that lookup finds has the rank.
pub proof fn lemma_lookup_misses<T: Keyed>(s: Seq<T::V>, r: Seq<Seq<int>>, i: int)
    requires
        ascending::<T>(s),
        lookup::<T>(s, r) is None,
        0 <= i < s.len(),
    ensures
        T::rank(s[i]) != r,
{
    if T::rank(s[i]) == r {
        lemma_lookup_finds_items::<T>(s, i);
    }
}

/// A placed item is what lookup finds under its rank; under every other rank lookup finds what
/// it found before.
pub proof fn lemma_lookup_after_placing<T: Keyed>(s: Seq<T::V>, item: T::V, r: Seq<Seq<int>>)
    requires
        ascending::<T>(s),
    ensures
        lookup::<T>(placed::<T>(s, item), r) == if r == T::rank(item) {
            Some(item)
        } else {
            lookup::<T>(s, r)
        },
{
    let own = T::rank(item);
    let p = slot::<T>(s, own);
    let t = placed::<T>(s, item);
    lemma_slot_bounds::<T>(s, own);
    lemma_placed_is_ascending::<T>(s, item);
    assert(t[p] == item);
    if r == own {
        lemma_lookup_finds_items::<T>(t, p);
    } else {
        match lookup::<T>(s, r) {
            Some(found) => {
                lemma_slot_bounds::<T>(s, r);
                let q = slot::<T>(s, r);
                if p < s.len() && T::rank(s[p]) == own {
                    assert(t[q] == s[q]);
                    lemma_lookup_finds_items::<T>(t, q);
                } else if q < p {
                    assert(t[q] == s[q]);
                    lemma_lookup_finds_items::<T>(t, q);
                } else {
                    assert(t[q + 1] == s[q]);
                    lemma_lookup_finds_items::<T>(t, q + 1);
                }
            },
            None => {
                match lookup::<T>(t, r) {
                    Some(found) => {
                        lemma_slot_bounds::<T>(t, r);
                        let q = slot::<T>(t, r);
                        assert(q != p);
                        if p < s.len() && T::rank(s[p]) == own {
                            assert(t[q] == s[q]);
                            lemma_lookup_misses::<T>(s, r, q);
                        } else if q < p {
                            assert(t[q] == s[q]);
                            lemma_lookup_misses::<T>(s, r, q);
                        } else {
                            assert(t[q] == s[q - 1]);
                            lemma_lookup_misses::<T>(s, r, q - 1);
                        }
                    },
                    None => {},
                }
            },
        }
    }
}

/// Two ascending tables in which every lookup gives the same are the same table.
pub proof fn lemma_tables_with_equal_lookups<T: Keyed>(a: Seq<T::V>, b: Seq<T::V>)
    requires
        ascending::<T>(a),
        ascending::<T>(b),
        forall|r: Seq<Seq<int>>| #[trigger] lookup::<T>(a, r) == lookup::<T>(b, r),
    ensures
        a == b,
    decreases a.len(),
{
    if a.len() == 0 {
        if b.len() > 0 {
            lemma_lookup_finds_items::<T>(b, 0);
            assert(lookup::<T>(a, T::rank(b[0])) is None);
        }
        assert(a =~= b);
    } else if b.len() == 0 {
        lemma_lookup_finds_items::<T>(a, 0);
        assert(lookup::<T>(b, T::rank(a[0])) is None);
    } else {
        let ra = T::rank(a[0]);
        let rb = T::rank(b[0]);
        lemma_lookup_finds_items::<T>(a, 0);
        lemma_lookup_finds_items::<T>(b, 0);
        rank_before_is_total(ra, rb);
        if rank_before(ra, rb) {
            lemma_slot_is::<T>(b, ra, 0);
            assert(lookup::<T>(b, ra) == lookup::<T>(a, ra));
        }
        if rank_before(rb, ra) {
            lemma_slot_is::<T>(a, rb, 0);
            assert(lookup::<T>(a, rb) == lookup::<T>(b, rb));
        }
        assert(ra == rb);
        assert(lookup::<T>(a, ra) == lookup::<T>(b, ra));
        let ta = a.drop_first();
        let tb = b.drop_first();
        assert forall|i: int, j: int| 0 <= i < j < ta.len() implies rank_before(
            #[trigger] T::rank(ta[i]),
            #[trigger] T::rank(ta[j]),
        ) by {
            assert(ta[i] == a[i + 1] && ta[j] == a[j + 1]);
        }
        assert forall|i: int, j: int| 0 <= i < j < tb.len() implies rank_before(
            #[trigger] T::rank(tb[i]),
            #[trigger] T::rank(tb[j]),
        ) by {
            assert(tb[i] == b[i + 1] && tb[j] == b[j + 1]);
        }
        assert forall|r: Seq<Seq<int>>| #[trigger] lookup::<T>(ta, r) == lookup::<T>(tb, r) by {
            lemma_lookup_without_first::<T>(a, r);
            lemma_lookup_without_first::<T>(b, r);
            assert(lookup::<T>(a, r) == lookup::<T>(b, r));
        }
        lemma_tables_with_equal_lookups::<T>(ta, tb);
        assert(a =~= seq![a[0]] + ta);
        assert(b =~= seq![b[0]] + tb);
    }
}

/// Without its first item a table gives the same lookups but for that item's rank.
proof fn lemma_lookup_without_first<T: Keyed>(s: Seq<T::V>, r: Seq<Seq<int>>)
    requires
        ascending::<T>(s),
        s.len() > 0,
    ensures
        lookup::<T>(s.drop_first(), r) == if r == T::rank(s[0]) {
            None
        } else {
            lookup::<T>(s, r)
        },
{
    let t = s.drop_first();
    let first = T::rank(s[0]);
    lemma_slot_bounds::<T>(t, r);
    let q = slot::<T>(t, r);
    rank_before_is_total(first, r);
    if r == first {
        if q < t.len() && T::rank(t[q]) == r {
            assert(t[q] == s[q + 1]);
            assert(rank_before(T::rank(s[0]), T::rank(s[q + 1])));
        }
    } else if rank_before(first, r) {
        assert(slot::<T>(s, r) == 1 + q);
        if q < t.len() {
            assert(t[q] == s[q + 1]);
        }
    } else {
        assert(slot::<T>(s, r) == 0);
        if q < t.len() && T::rank(t[q]) == r {
            assert(t[q] == s[q + 1]);
            assert(rank_before(T::rank(s[0]), T::rank(s[q + 1])));
        }
    }
}

/// Items with different keys can be placed in either order: the table comes out the same.
pub proof fn placing_order_does_not_matter<T: Keyed>(s: Seq<T::V>, x: T::V, y: T::V)
    requires
        ascending::<T>(s),
        T::rank(x) != T::rank(y),
    ensures
        placed::<T>(placed::<T>(s, x), y) == placed::<T>(placed::<T>(s, y), x),
{
    let sx = placed::<T>(s, x);
    let sy = placed::<T>(s, y);
    lemma_placed_is_ascending::<T>(s, x);
    lemma_placed_is_ascending::<T>(s, y);
    lemma_placed_is_ascending::<T>(sx, y);
    lemma_placed_is_ascending::<T>(sy, x);
    assert forall|r: Seq<Seq<int>>| #[trigger]
        lookup::<T>(placed::<T>(sx, y), r) == lookup::<T>(placed::<T>(sy, x), r) by {
        lemma_lookup_after_placing::<T>(s, x, r);
        lemma_lookup_after_placing::<T>(s, y, r);
        lemma_lookup_after_placing::<T>(sx, y, r);
        lemma_lookup_after_placing::<T>(sy, x, r);
    }
    lemma_tables_with_equal_lookups::<T>(placed::<T>(sx, y), placed::<T>(sy, x));
}

/// A table without one of its items stays in order.
pub proof fn lemma_removal_is_ascending<T: Keyed>(s: Seq<T::V>, i: int)
    requires
        ascending::<T>(s),
        0 <= i < s.len(),
    ensures
        ascending::<T>(s.remove(i)),
{
    let t = s.remove(i);
    assert forall|a: int, b: int| 0 <= a < b < t.len() implies rank_before(
        #[trigger] T::rank(t[a]),
        #[trigger] T::rank(t[b]),
    ) by {
        let x = if a < i {
            a
        } else {
            a + 1
        };
        let y = if b < i {
            b
        } else {
            b + 1
        };
        assert(t[a] == s[x] && t[b] == s[y]);
    }
}

/// Taking an item out and placing another with the same key is the same as placing it right away.
pub proof fn lemma_placing_after_removal<T: Keyed>(s: Seq<T::V>, i: int, item: T::V)
    requires
        ascending::<T>(s),
        0 <= i < s.len(),
        T::rank(s[i]) == T::rank(item),
    ensures
        placed::<T>(s.remove(i), item) == placed::<T>(s, item),
{
    let r = T::rank(item);
    let t = s.remove(i);
    lemma_lookup_finds_items::<T>(s, i);
    assert forall|k: int| 0 <= k < i implies rank_before(#[trigger] T::rank(t[k]), r) by {
        assert(t[k] == s[k]);
    }
    if i < t.len() {
        assert(t[i] == s[i + 1]);
        rank_before_is_total(r, T::rank(s[i + 1]));
        assert(rank_before(T::rank(s[i]), T::rank(s[i + 1])));
    }
    lemma_slot_is::<T>(t, r, i);
    assert(placed::<T>(t, item) =~= s.update(i, item));
}

/// Items in ascending order of their keys, at most one for each key.
pub struct Table<T: Keyed> {
    items: Vec<T>,
}

impl<T: Keyed> View for Table<T> {
    type V = Seq<T::V>;

    closed spec fn view(&self) -> Seq<T::V> {
        self.items@.map_values(|item: T| item@)
    }
}

impl<T: Keyed> Table<T> {
    /// The items stand in ascending order.
    pub open spec fn wf(&self) -> bool {
        ascending::<T>(self@)
    }

    /// A table without items.
    pub fn new() -> (table: Self)
        ensures
            table.wf(),
            table@ == Seq::<T::V>::empty(),
    {
        let table = Table { items: Vec::new() };
        assert(table@ =~= Seq::<T::V>::empty());
        table
    }

    /// The number of items.
    pub fn len(&self) -> (len: usize)
        ensures
            len == self@.len(),
    {
        self.items.len()
    }

    /// Whether there is no item.
    pub fn is_empty(&self) -> (empty: bool)
        ensures
            empty == (self@.len() == 0),
    {
        self.items.len() == 0
    }

    /// The item at a position.
    pub fn at(&self, i: usize) -> (item: &T)
        requires
            i < self@.len(),
        ensures
            item@ == self@[i as int],
    {
        &self.items[i]
    }

    /// The position of the item with the given key.
    pub fn find(&self, key: &T::Key) -> (position: Option<usize>)
        requires
            self.wf(),
        ensures
            position matches Some(i) ==> i < self@.len() && lookup::<T>(self@, T::key_rank(key))
                == Some(self@[i as int]) && T::rank(self@[i as int]) == T::key_rank(key),
            position is None ==> lookup::<T>(self@, T::key_rank(key)) is None,
    {
        let ghost r = T::key_rank(key);
        let mut low: usize = 0;
        let mut high: usize = self.items.len();
        while low < high
            invariant
                self.wf(),
                r == T::key_rank(key),
                low <= high <= self@.len(),
                self@.len() == self.items@.len(),
                forall|i: int| 0 <= i < low ==> rank_before(#[trigger] T::rank(self@[i]), r),
                forall|i: int|
                    high <= i < self@.len() ==> !rank_before(#[trigger] T::rank(self@[i]), r),
            decreases high - low,
        {
            let middle: usize = low + (high - low) / 2;
            let ghost here = T::rank(self@[middle as int]);
            match self.items[middle].compare_to_key(key) {
                Comparison::Same => {
                    proof {
                        lemma_lookup_finds_items::<T>(self@, middle as int);
                    }
                    return Some(middle);
                },
                Comparison::Before => {
                    proof {
                        assert forall|i: int| 0 <= i < middle + 1 implies rank_before(
                            #[trigger] T::rank(self@[i]),
                            r,
                        ) by {
                            if i < middle {
                                rank_before_is_transitive(T::rank(self@[i]), here, r);
                            }
                        }
                    }
                    low = middle + 1;
                },
                Comparison::After => {
                    proof {
                        rank_before_is_total(here, r);
                        assert forall|i: int| middle <= i < self@.len() implies !rank_before(
                            #[trigger] T::rank(self@[i]),
                            r,
                        ) by {
                            if i > middle {
                                rank_before_is_transitive(r, here, T::rank(self@[i]));
                                rank_before_is_total(r, T::rank(self@[i]));
                            }
                        }
                    }
                    high = middle;
                },
            }
        }
        proof {
            lemma_slot_is::<T>(self@, r, low as int);
            if low < self@.len() && T::rank(self@[low as int]) == r {
                lemma_lookup_finds_items::<T>(self@, low as int);
            }
        }
        if low < self.items.len() {
            match self.items[low].compare_to_key(key) {
                Comparison::Same => {
                    return Some(low);
                },
                _ => {},
            }
        }
        None
    }

    /// The item with the given key.
    pub fn get(&self, key: &T::Key) -> (item: Option<&T>)
        requires
            self.wf(),
        ensures
            item matches Some(found) ==> lookup::<T>(self@, T::key_rank(key)) == Some(found@),
            item is None ==> lookup::<T>(self@, T::key_rank(key)) is None,
    {
        match self.find(key) {
            Some(i) => Some(self.at(i)),
            None => None,
        }
    }

    /// Takes out the item at a position.
    pub fn take_at(&mut self, i: usize) -> (item: T)
        requires
            old(self).wf(),
            i < old(self)@.len(),
        ensures
            final(self).wf(),
            item@ == old(self)@[i as int],
            final(self)@ == old(self)@.remove(i as int),
    {
        proof {
            lemma_removal_is_ascending::<T>(self@, i as int);
        }
        let ghost before = self@;
        let item = self.items.remove(i);
        assert(self@ =~= before.remove(i as int));
        item
    }

    /// Puts an item in its place, over the item with the same key if there is one.
    pub fn place(&mut self, item: T)
        requires
            old(self).wf(),
        ensures
            final(self).wf(),
            final(self)@ == placed::<T>(old(self)@, item@),
    {
        let ghost before = self@;
        let ghost r = T::rank(item@);
        proof {
            lemma_placed_is_ascending::<T>(before, item@);
        }
        let mut i: usize = 0;
        while i < self.items.len()
            invariant
                self@ == before,
                before == old(self)@,
                before.len() == self.items@.len(),
                r == T::rank(item@),
                i <= before.len(),
                forall|k: int| 0 <= k < i ==> rank_before(#[trigger] T::rank(before[k]), r),
                ascending::<T>(placed::<T>(before, item@)),
            decreases before.len() - i,
        {
            match self.items[i].compare(&item) {
                Comparison::Before => {},
                Comparison::Same => {
                    proof {
                        rank_before_is_total(r, r);
                        lemma_slot_is::<T>(before, r, i as int);
                    }
                    let ghost shown = item@;
                    self.items.set(i, item);
                    assert(self@ =~= before.update(i as int, shown));
                    return;
                },
                Comparison::After => {
                    proof {
                        lemma_slot_is::<T>(before, r, i as int);
                    }
                    let ghost shown = item@;
                    self.items.insert(i, item);
                    assert(self@ =~= before.insert(i as int, shown));
                    return;
                },
            }
            i += 1;
        }
        proof {
            lemma_slot_is::<T>(before, r, i as int);
        }
        let ghost shown = item@;
        self.items.push(item);
        assert(self@ =~= before.insert(i as int, shown));
    }
}

} // verus!

//! A map keyed by text, kept in key order.
use crate::text;
use crate::text::{same_text, text_less};
use vstd::prelude::*;

verus! {

/// The keys of a listing stand in strictly ascending order.
pub open spec fn ascending<V>(l: Seq<(Seq<char>, V)>) -> bool {
    forall|i: int, j: int| 0 <= i < j < l.len() ==> text::text_lt(#[trigger] l[i].0, #[trigger] l[j].0)
}

/// The map that a listing stands for.
pub open spec fn map_of<V>(l: Seq<(Seq<char>, V)>) -> Map<Seq<char>, V> {
    Map::new(
        |k: Seq<char>| exists|i: int| 0 <= i < l.len() && (#[trigger] l[i]).0 == k,
        |k: Seq<char>| l[choose|i: int| 0 <= i < l.len() && (#[trigger] l[i]).0 == k].1,
    )
}

/// In an ascending listing each entry is what the map holds under its key.
pub proof fn listing_entry<V>(l: Seq<(Seq<char>, V)>, i: int)
    requires
        ascending(l),
        0 <= i < l.len(),
    ensures
        map_of(l).dom().contains(l[i].0),
        map_of(l)[l[i].0] == l[i].1,
{
    let k = l[i].0;
    let j = choose|j: int| 0 <= j < l.len() && (#[trigger] l[j]).0 == k;
    assert(l[i].0 == k);
    text::text_lt_irreflexive(k);
    if j < i {
        assert(text::text_lt(l[j].0, l[i].0));
    }
    if i < j {
        assert(text::text_lt(l[i].0, l[j].0));
    }
}

/// A map from text to `V` whose entries are kept in ascending key order.
#[derive(Debug)]
pub struct TextMap<V> {
    entries: Vec<(String, V)>,
}

impl<V> TextMap<V> {
    /// The entries in key order.
    pub closed spec fn listing(self) -> Seq<(Seq<char>, V)> {
        Seq::new(self.entries@.len(), |i: int| (self.entries@[i].0@, self.entries@[i].1))
    }

    #[verifier::type_invariant]
    spec fn sorted(self) -> bool {
        ascending(self.listing())
    }
}

impl<V> View for TextMap<V> {
    type V = Map<Seq<char>, V>;

    open spec fn view(&self) -> Map<Seq<char>, V> {
        map_of(self.listing())
    }
}

impl<V> TextMap<V> {
    /// The empty map.
    pub fn new() -> (r: TextMap<V>)
        ensures
            r@ == Map::<Seq<char>, V>::empty(),
            r.listing().len() == 0,
    {
        let r = TextMap { entries: Vec::new() };
        assert(r@ =~= Map::<Seq<char>, V>::empty());
        r
    }

    /// How many keys the map has.
    pub fn len(&self) -> (r: usize)
        ensures
            r == self.listing().len(),
            ascending(self.listing()),
    {
        proof {
            use_type_invariant(self);
        }
        self.entries.len()
    }

    /// The `i`-th key in ascending order.
    pub fn key_at(&self, i: usize) -> (r: &String)
        requires
            i < self.listing().len(),
        ensures
            r@ == self.listing()[i as int].0,
            self@.dom().contains(r@),
    {
        proof {
            use_type_invariant(self);
            listing_entry(self.listing(), i as int);
        }
        &self.entries[i].0
    }

    /// The value under the `i`-th key in ascending order.
    pub fn value_at(&self, i: usize) -> (r: &V)
        requires
            i < self.listing().len(),
        ensures
            *r == self.listing()[i as int].1,
            *r == self@[self.listing()[i as int].0],
    {
        proof {
            use_type_invariant(self);
            listing_entry(self.listing(), i as int);
        }
        &self.entries[i].1
    }

    /// The position of `key` among the keys.
    fn position(&self, key: &str) -> (r: Option<usize>)
        ensures
            match r {
                Some(i) => i < self.entries@.len() && self.entries@[i as int].0@ == key@,
                None => !self@.dom().contains(key@),
            },
    {
        let mut i: usize = 0;
        while i < self.entries.len()
            invariant
                i <= self.entries@.len(),
                forall|j: int| 0 <= j < i ==> (#[trigger] self.listing()[j]).0 != key@,
            decreases self.entries@.len() - i,
        {
            if same_text(self.entries[i].0.as_str(), key) {
                return Some(i);
            }
            i = i + 1;
        }
        None
    }

    /// The value under `key`.
    pub fn get(&self, key: &str) -> (r: Option<&V>)
        ensures
            match r {
                Some(v) => self@.dom().contains(key@) && *v == self@[key@],
                None => !self@.dom().contains(key@),
            },
    {
        match self.position(key) {
            Some(i) => {
                proof {
                    use_type_invariant(self);
                    listing_entry(self.listing(), i as int);
                }
                Some(&self.entries[i].1)
            },
            None => None,
        }
    }

    /// True if the map has `key`.
    pub fn contains_key(&self, key: &str) -> (r: bool)
        ensures
            r == self@.dom().contains(key@),
    {
        match self.get(key) {
            Some(_) => true,
            None => false,
        }
    }

    /// Puts `value` under `key`, in place of what was there.
    pub fn insert(&mut self, key: String, value: V)
        ensures
            final(self)@ == old(self)@.insert(key@, value),
    {
        proof {
            use_type_invariant(&*self);
        }
        let ghost before = self.listing();
        let mut i: usize = 0;
        while i < self.entries.len() && text_less(self.entries[i].0.as_str(), key.as_str())
            invariant
                self.listing() == before,
                i <= self.entries@.len(),
                forall|j: int| 0 <= j < i ==> text::text_lt((#[trigger] before[j]).0, key@),
            decreases self.entries@.len() - i,
        {
            assert(before[i as int].0 == self.entries@[i as int].0@);
            i = i + 1;
        }
        let mut entries: Vec<(String, V)> = Vec::new();
        let ghost held = self.entries@;
        std::mem::swap(&mut entries, &mut self.entries);
        assert(entries@ == held);
        assert(before.len() == held.len());
        let same = i < entries.len() && same_text(entries[i].0.as_str(), key.as_str());
        let ghost k = key@;
        if same {
            assert(before[i as int].0 == k);
            let _ = entries.remove(i);
        }
        entries.insert(i, (key, value));
        let ghost after = Seq::new(entries@.len(), |j: int| (entries@[j].0@, entries@[j].1));
        proof {
            let d: int = if same {
                0
            } else {
                1
            };
            assert(after.len() == before.len() + d);
            assert(after[i as int] == (k, value));
            assert forall|j: int| 0 <= j < i implies after[j] == before[j] by {}
            assert forall|j: int| i < j < after.len() implies after[j] == before[j - d] by {}
            if i < before.len() {
                text::text_lt_total(before[i as int].0, k);
            }
            assert forall|j: int| i < j < after.len() implies text::text_lt(k, (#[trigger] after[j]).0) by {
                if j - d > i {
                    assert(text::text_lt(before[i as int].0, before[j - d].0));
                    if before[i as int].0 != k {
                        text::text_lt_transitive(k, before[i as int].0, before[j - d].0);
                    }
                }
            }
            assert(ascending(after)) by {
                assert forall|a: int, b: int| 0 <= a < b < after.len() implies text::text_lt(
                    #[trigger] after[a].0,
                    #[trigger] after[b].0,
                ) by {
                    if a < i && b > i {
                        text::text_lt_transitive(after[a].0, k, after[b].0);
                    }
                }
            }
            assert(map_of(after) =~= map_of(before).insert(k, value)) by {
                listing_entry(after, i as int);
                assert forall|q: Seq<char>| map_of(after).dom().contains(q) == map_of(
                    before,
                ).insert(k, value).dom().contains(q) by {
                    if map_of(after).dom().contains(q) && q != k {
                        let j = choose|j: int| 0 <= j < after.len() && (#[trigger] after[j]).0 == q;
                        if j < i {
                            assert(before[j].0 == q);
                        } else {
                            assert(before[j - d].0 == q);
                        }
                    }
                    if map_of(before).dom().contains(q) && q != k {
                        let j = choose|j: int|
                            0 <= j < before.len() && (#[trigger] before[j]).0 == q;
                        if j < i {
                            assert(after[j].0 == q);
                        } else {
                            assert(after[j + d].0 == q);
                        }
                    }
                }
                assert forall|q: Seq<char>|
                    map_of(before).dom().contains(q) && q != k implies map_of(after)[q] == map_of(
                    before,
                )[q] by {
                    let j = choose|j: int| 0 <= j < before.len() && (#[trigger] before[j]).0 == q;
                    listing_entry(before, j);
                    if j < i {
                        listing_entry(after, j);
                    } else {
                        listing_entry(after, j + d);
                    }
                }
            }
        }
        let r = TextMap { entries };
        assert(r.listing() =~= after);
        *self = r;
    }
}

impl<V: Clone> Clone for TextMap<V> {
    fn clone(&self) -> (r: Self)
        ensures
            r.listing().len() == self.listing().len(),
            forall|i: int|
                0 <= i < r.listing().len() ==> {
                    &&& (#[trigger] r.listing()[i]).0 == self.listing()[i].0
                    &&& cloned(self.listing()[i].1, r.listing()[i].1)
                },
    {
        proof {
            use_type_invariant(self);
        }
        let mut entries: Vec<(String, V)> = Vec::new();
        let mut i: usize = 0;
        while i < self.entries.len()
            invariant
                i <= self.entries@.len(),
                entries@.len() == i,
                forall|j: int|
                    0 <= j < i ==> {
                        &&& (#[trigger] entries@[j]).0@ == self.entries@[j].0@
                        &&& cloned(self.entries@[j].1, entries@[j].1)
                    },
            decreases self.entries@.len() - i,
        {
            let key = self.entries[i].0.clone();
            let value = self.entries[i].1.clone();
            entries.push((key, value));
            i = i + 1;
        }
        let ghost l = Seq::new(entries@.len(), |j: int| (entries@[j].0@, entries@[j].1));
        assert(ascending(l)) by {
            assert forall|a: int, b: int| 0 <= a < b < l.len() implies text::text_lt(
                #[trigger] l[a].0,
                #[trigger] l[b].0,
            ) by {
                assert(l[a].0 == self.listing()[a].0);
                assert(l[b].0 == self.listing()[b].0);
            }
        }
        TextMap { entries }
    }
}

/// Two listings in ascending order that stand for the same map are the same:
/// the order of the entries is fixed by the keys alone.
pub proof fn listing_unique<V>(a: Seq<(Seq<char>, V)>, b: Seq<(Seq<char>, V)>)
    requires
        ascending(a),
        ascending(b),
        map_of(a) == map_of(b),
    ensures
        a == b,
    decreases a.len(),
{
    if a.len() == 0 {
        if b.len() > 0 {
            listing_entry(b, 0);
            assert(false);
        }
        assert(a =~= b);
    } else if b.len() == 0 {
        listing_entry(a, 0);
        assert(false);
    } else {
        listing_entry(a, a.len() - 1);
        listing_entry(b, b.len() - 1);
        let (ka, kb) = (a.last().0, b.last().0);
        let i = choose|i: int| 0 <= i < b.len() && (#[trigger] b[i]).0 == ka;
        let j = choose|j: int| 0 <= j < a.len() && (#[trigger] a[j]).0 == kb;
        text::text_lt_irreflexive(ka);
        if ka != kb {
            assert(text::text_lt(b[i].0, b.last().0));
            assert(text::text_lt(a[j].0, a.last().0));
            text::text_lt_transitive(ka, kb, ka);
        }
        let (a1, b1) = (a.drop_last(), b.drop_last());
        assert(ascending(a1));
        assert(ascending(b1));
        assert forall|q: Seq<char>| map_of(a1).dom().contains(q) implies #[trigger] map_of(
            b1,
        ).dom().contains(q) && map_of(a1)[q] == map_of(b1)[q] by {
            listing_drop_last(a, b, q);
        }
        assert forall|q: Seq<char>| map_of(b1).dom().contains(q) implies #[trigger] map_of(
            a1,
        ).dom().contains(q) && map_of(a1)[q] == map_of(b1)[q] by {
            listing_drop_last(b, a, q);
        }
        assert(map_of(a1).dom() =~= map_of(b1).dom());
        assert(map_of(a1) =~= map_of(b1));
        listing_unique(a1, b1);
        assert(a =~= a1.push(a.last()));
        assert(b =~= b1.push(b.last()));
    }
}

proof fn listing_drop_last<V>(a: Seq<(Seq<char>, V)>, b: Seq<(Seq<char>, V)>, q: Seq<char>)
    requires
        ascending(a),
        ascending(b),
        map_of(a) == map_of(b),
        a.len() > 0,
        b.len() > 0,
        a.last().0 == b.last().0,
        map_of(a.drop_last()).dom().contains(q),
    ensures
        map_of(b.drop_last()).dom().contains(q),
        map_of(a.drop_last())[q] == map_of(b.drop_last())[q],
{
    let (a1, b1) = (a.drop_last(), b.drop_last());
    assert(ascending(a1));
    assert(ascending(b1));
    let i = choose|i: int| 0 <= i < a1.len() && (#[trigger] a1[i]).0 == q;
    assert(a[i] == a1[i]);
    listing_entry(a1, i);
    listing_entry(a, i);
    let j = choose|j: int| 0 <= j < b.len() && (#[trigger] b[j]).0 == q;
    listing_entry(b, j);
    text::text_lt_irreflexive(q);
    assert(text::text_lt(a[i].0, a.last().0));
    assert(j < b.len() - 1);
    assert(b1[j] == b[j]);
    listing_entry(b1, j);
}

} // verus!

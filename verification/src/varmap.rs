//! A finite map keyed by variable names, kept in the order in which keys were
//! first inserted, with every key present at most once.
use vstd::prelude::*;

use crate::variables::{VarName, contains_var, var_views};

verus! {

/// Values that can be copied with a guarantee that the copy has the same
/// content.
pub trait Duplicate: View + Sized {
    /// A value with the same content.
    fn duplicate(&self) -> (r: Self)
        ensures
            r@ == self@,
    ;
}

impl Duplicate for crate::values::StreamType {
    fn duplicate(&self) -> (r: Self) {
        *self
    }
}

/// A map from variable names to values of type `V`.
#[derive(Debug, PartialEq)]
pub struct VarMap<V> {
    entries: Vec<(VarName, V)>,
}

/// The keys of a sequence of entries, as strings.
pub open spec fn entry_keys<V>(s: Seq<(VarName, V)>) -> Seq<Seq<char>> {
    s.map_values(|e: (VarName, V)| e.0@)
}

impl<V> VarMap<V> {
    /// Every key occurs once.
    #[verifier::type_invariant]
    closed spec fn keys_distinct(self) -> bool {
        entry_keys(self.entries@).no_duplicates()
    }

    /// The keys, in insertion order.
    pub closed spec fn key_seq(self) -> Seq<Seq<char>> {
        entry_keys(self.entries@)
    }

    /// The position of key `k` among the entries.
    closed spec fn index_of(self, k: Seq<char>) -> int {
        choose|i: int| 0 <= i < self.entries@.len() && self.entries@[i].0@ == k
    }
}

impl<V: View> View for VarMap<V> {
    type V = Map<Seq<char>, V::V>;

    closed spec fn view(&self) -> Map<Seq<char>, V::V> {
        Map::new(
            |k: Seq<char>| entry_keys(self.entries@).contains(k),
            |k: Seq<char>| self.entries@[self.index_of(k)].1@,
        )
    }
}

impl<V: View> VarMap<V> {
    /// The entry at position `i` is in the map.
    proof fn lemma_entry(self, i: int)
        requires
            entry_keys(self.entries@).no_duplicates(),
            0 <= i < self.entries@.len(),
        ensures
            self@.contains_key(self.entries@[i].0@),
            self@[self.entries@[i].0@] == self.entries@[i].1@,
            self.key_seq()[i] == self.entries@[i].0@,
    {
        let k = self.entries@[i].0@;
        assert(entry_keys(self.entries@)[i] == k);
        let j = self.index_of(k);
        assert(0 <= j < self.entries@.len() && self.entries@[j].0@ == k);
        assert(entry_keys(self.entries@)[j] == k);
    }

    /// The map's keys are exactly the keys of its entries.
    proof fn lemma_keys(self)
        requires
            entry_keys(self.entries@).no_duplicates(),
        ensures
            self.key_seq().no_duplicates(),
            forall|k: Seq<char>| #[trigger] self@.contains_key(k) <==> self.key_seq().contains(k),
    {
    }

    /// The empty map.
    pub fn new() -> (r: VarMap<V>)
        ensures
            r@ == Map::<Seq<char>, V::V>::empty(),
            r.key_seq() == Seq::<Seq<char>>::empty(),
    {
        let r = VarMap { entries: Vec::new() };
        assert(entry_keys(r.entries@) =~= Seq::<Seq<char>>::empty());
        assert(r@ =~= Map::<Seq<char>, V::V>::empty());
        r
    }

    /// The number of keys.
    pub fn len(&self) -> (r: usize)
        ensures
            r == self.key_seq().len(),
            self.key_seq().no_duplicates(),
            forall|k: Seq<char>| #[trigger] self@.contains_key(k) <==> self.key_seq().contains(k),
    {
        proof {
            use_type_invariant(self);
            self.lemma_keys();
        }
        self.entries.len()
    }

    /// The position of `k` among the entries, if it is a key.
    fn find(&self, k: &VarName) -> (r: Option<usize>)
        ensures
            r matches Some(i) ==> i < self.entries@.len() && self.entries@[i as int].0@ == k@,
            r is None ==> !entry_keys(self.entries@).contains(k@),
    {
        let mut i: usize = 0;
        while i < self.entries.len()
            invariant
                i <= self.entries@.len(),
                forall|j: int| 0 <= j < i ==> self.entries@[j].0@ != k@,
            decreases self.entries@.len() - i,
        {
            if self.entries[i].0.same_as(k) {
                return Some(i);
            }
            i = i + 1;
        }
        assert forall|j: int| 0 <= j < entry_keys(self.entries@).len() implies entry_keys(
            self.entries@,
        )[j] != k@ by {}
        None
    }

    /// Whether `k` is a key.
    pub fn contains_key(&self, k: &VarName) -> (r: bool)
        ensures
            r == self@.contains_key(k@),
    {
        proof {
            use_type_invariant(self);
        }
        match self.find(k) {
            Some(i) => {
                proof {
                    self.lemma_entry(i as int);
                }
                true
            },
            None => false,
        }
    }

    /// The value stored under `k`.
    pub fn get(&self, k: &VarName) -> (r: Option<&V>)
        ensures
            r matches Some(v) ==> self@.contains_key(k@) && self@[k@] == v@,
            r is None ==> !self@.contains_key(k@),
    {
        proof {
            use_type_invariant(self);
        }
        match self.find(k) {
            Some(i) => {
                proof {
                    self.lemma_entry(i as int);
                }
                Some(&self.entries[i].1)
            },
            None => None,
        }
    }

    /// The key and value at position `i`, in insertion order.
    pub fn entry_at(&self, i: usize) -> (r: (&VarName, &V))
        requires
            i < self.key_seq().len(),
        ensures
            r.0@ == self.key_seq()[i as int],
            self@.contains_key(r.0@),
            self@[r.0@] == r.1@,
    {
        proof {
            use_type_invariant(self);
            self.lemma_entry(i as int);
        }
        (&self.entries[i].0, &self.entries[i].1)
    }

    /// The keys, in insertion order.
    pub fn keys(&self) -> (r: Vec<VarName>)
        ensures
            var_views(r@) == self.key_seq(),
    {
        let mut r: Vec<VarName> = Vec::new();
        let mut i: usize = 0;
        while i < self.entries.len()
            invariant
                i <= self.entries@.len(),
                r@.len() == i,
                forall|j: int| 0 <= j < i ==> #[trigger] r@[j]@ == self.entries@[j].0@,
            decreases self.entries@.len() - i,
        {
            r.push(self.entries[i].0.duplicate());
            i = i + 1;
        }
        assert(var_views(r@) =~= self.key_seq());
        r
    }

    /// A map with the same keys, in the same order, and the same values.
    pub fn duplicate(&self) -> (r: VarMap<V>)
        where V: Duplicate,
        ensures
            r@ == self@,
            r.key_seq() == self.key_seq(),
    {
        proof {
            use_type_invariant(self);
        }
        let mut es: Vec<(VarName, V)> = Vec::new();
        let mut i: usize = 0;
        while i < self.entries.len()
            invariant
                i <= self.entries@.len(),
                es@.len() == i,
                forall|j: int|
                    0 <= j < i ==> #[trigger] es@[j].0@ == self.entries@[j].0@ && es@[j].1@
                        == self.entries@[j].1@,
            decreases self.entries@.len() - i,
        {
            es.push((self.entries[i].0.duplicate(), self.entries[i].1.duplicate()));
            i = i + 1;
        }
        assert(entry_keys(es@) =~= entry_keys(self.entries@));
        let r = VarMap { entries: es };
        proof {
            assert forall|k: Seq<char>| #[trigger] r@.contains_key(k) == self@.contains_key(k) by {}
            assert forall|k: Seq<char>| r@.contains_key(k) implies #[trigger] r@[k] == self@[k] by {
                let j = r.index_of(k);
                r.lemma_entry(j);
                self.lemma_entry(j);
            }
            assert(r@ =~= self@);
        }
        r
    }

    /// Store `v` under `k`; a key already present keeps its position.
    pub fn insert(&mut self, k: VarName, v: V)
        ensures
            final(self)@ == old(self)@.insert(k@, v@),
            old(self)@.contains_key(k@) ==> final(self).key_seq() == old(self).key_seq(),
            !old(self)@.contains_key(k@) ==> final(self).key_seq() == old(self).key_seq().push(
                k@,
            ),
    {
        proof {
            use_type_invariant(&*self);
        }
        let ghost old_self = *self;
        let mut es: Vec<(VarName, V)> = Vec::new();
        std::mem::swap(&mut es, &mut self.entries);
        let ghost ks = entry_keys(es@);
        match self.find_in(&es, &k) {
            Some(i) => {
                let ghost kv = k@;
                let ghost vv = v@;
                es.set(i, (k, v));
                proof {
                    assert(entry_keys(es@) =~= ks);
                }
                self.entries = es;
                proof {
                    assert forall|q: Seq<char>| #[trigger]
                        self@.contains_key(q) == old_self@.insert(kv, vv).contains_key(q) by {
                        old_self.lemma_keys();
                        assert(ks[i as int] == kv);
                        assert(entry_keys(self.entries@) == ks);
                    }
                    assert forall|q: Seq<char>| self@.contains_key(q) implies #[trigger] self@[q]
                        == old_self@.insert(kv, vv)[q] by {
                        let j = self.index_of(q);
                        self.lemma_entry(j);
                        if q == kv {
                            assert(j == i) by {
                                assert(entry_keys(self.entries@)[i as int] == kv);
                            }
                        } else {
                            old_self.lemma_entry(j);
                        }
                    }
                    assert(self@ =~= old_self@.insert(kv, vv));
                }
            },
            None => {
                let ghost kv = k@;
                let ghost vv = v@;
                es.push((k, v));
                proof {
                    assert(entry_keys(es@) =~= ks.push(kv));
                }
                self.entries = es;
                proof {
                    old_self.lemma_keys();
                    assert(!old_self@.contains_key(kv));
                    let n = old_self.entries@.len() as int;
                    assert forall|q: Seq<char>| #[trigger]
                        self@.contains_key(q) == old_self@.insert(kv, vv).contains_key(q) by {
                        if entry_keys(self.entries@).contains(q) {
                            let j = choose|j: int|
                                0 <= j < entry_keys(self.entries@).len() && entry_keys(
                                    self.entries@,
                                )[j] == q;
                            if j < n {
                                assert(entry_keys(old_self.entries@)[j] == q);
                            }
                        }
                        if old_self@.contains_key(q) {
                            let j = choose|j: int|
                                0 <= j < entry_keys(old_self.entries@).len() && entry_keys(
                                    old_self.entries@,
                                )[j] == q;
                            assert(entry_keys(self.entries@)[j] == q);
                        }
                        if q == kv {
                            assert(entry_keys(self.entries@)[n] == q);
                        }
                    }
                    assert forall|q: Seq<char>| self@.contains_key(q) implies #[trigger] self@[q]
                        == old_self@.insert(kv, vv)[q] by {
                        let j = self.index_of(q);
                        self.lemma_entry(j);
                        if j < n {
                            assert(self.entries@[j] == old_self.entries@[j]);
                            old_self.lemma_entry(j);
                        }
                    }
                    assert(self@ =~= old_self@.insert(kv, vv));
                }
            },
        }
    }

    /// The position of `k` among `es`, if it is a key there.
    fn find_in(&self, es: &Vec<(VarName, V)>, k: &VarName) -> (r: Option<usize>)
        ensures
            r matches Some(i) ==> i < es@.len() && es@[i as int].0@ == k@,
            r is None ==> !entry_keys(es@).contains(k@),
    {
        let mut i: usize = 0;
        while i < es.len()
            invariant
                i <= es@.len(),
                forall|j: int| 0 <= j < i ==> es@[j].0@ != k@,
            decreases es@.len() - i,
        {
            if es[i].0.same_as(k) {
                return Some(i);
            }
            i = i + 1;
        }
        assert forall|j: int| 0 <= j < entry_keys(es@).len() implies entry_keys(es@)[j]
            != k@ by {}
        None
    }

    /// Keep only the keys named in `keep`, in their order.
    pub fn retain_vars(&mut self, keep: &Vec<VarName>)
        ensures
            final(self)@ == old(self)@.restrict(var_views(keep@).to_set()),
            final(self).key_seq() == old(self).key_seq().filter(
                |k: Seq<char>| var_views(keep@).contains(k),
            ),
    {
        proof {
            use_type_invariant(&*self);
        }
        let ghost old_self = *self;
        let ghost pred = |k: Seq<char>| var_views(keep@).contains(k);
        let mut es: Vec<(VarName, V)> = Vec::new();
        std::mem::swap(&mut es, &mut self.entries);
        let mut out: Vec<(VarName, V)> = Vec::new();
        let ghost n = es@.len();
        let ghost src = es@;
        let ghost mut i: int = 0;
        while es.len() > 0
            invariant
                0 <= i <= n,
                n == src.len(),
                es@ == src.subrange(i, n as int),
                src == old_self.entries@,
                entry_keys(out@) == entry_keys(src.subrange(0, i)).filter(pred),
                forall|j: int|
                    0 <= j < out@.len() ==> exists|t: int| 0 <= t < n && #[trigger] out@[j] == src[t],
                pred == (|k: Seq<char>| var_views(keep@).contains(k)),
            decreases es@.len(),
        {
            let e = es.remove(0);
            let ghost old_out = out@;
            proof {
                assert(e == src[i]);
                assert(es@ =~= src.subrange(i + 1, n as int));
                assert(entry_keys(src.subrange(0, i + 1)).drop_last() =~= entry_keys(
                    src.subrange(0, i),
                ));
                assert(entry_keys(src.subrange(0, i + 1)).last() == e.0@);
                reveal_with_fuel(Seq::<Seq<char>>::filter, 1);
            }
            let keep_it = contains_var(keep, &e.0);
            if keep_it {
                out.push(e);
                proof {
                    assert(entry_keys(out@) =~= entry_keys(old_out).push(e.0@));
                }
            }
            proof {
                assert forall|j: int| 0 <= j < out@.len() implies exists|t: int|
                    0 <= t < n && #[trigger] out@[j] == src[t] by {
                    if j < old_out.len() {
                        assert(out@[j] == old_out[j]);
                    } else {
                        assert(out@[j] == src[i]);
                    }
                }
                i = i + 1;
            }
        }
        proof {
            assert(src.subrange(0, i) =~= src);
            assert(entry_keys(out@) =~= entry_keys(src).filter(pred));
            old_self.lemma_keys();
            lemma_filter_no_duplicates(entry_keys(src), pred);
        }
        self.entries = out;
        proof {
            let keep_set = var_views(keep@).to_set();
            let target = old_self@.restrict(keep_set);
            assert forall|q: Seq<char>| #[trigger]
                self@.contains_key(q) == target.contains_key(q) by {
                let ks = entry_keys(src);
                if ks.filter(pred).contains(q) {
                    ks.lemma_filter_contains_rev(pred, q);
                    let i = choose|i: int| 0 <= i < ks.filter(pred).len() && ks.filter(pred)[i] == q;
                    ks.lemma_filter_pred(pred, i);
                }
                if ks.contains(q) && pred(q) {
                    let i = choose|i: int| 0 <= i < ks.len() && ks[i] == q;
                    ks.lemma_filter_contains(pred, i);
                }
            }
            assert forall|q: Seq<char>| self@.contains_key(q) implies #[trigger] self@[q]
                == target[q] by {
                let j = self.index_of(q);
                self.lemma_entry(j);
                let t = choose|t: int| 0 <= t < n && #[trigger] self.entries@[j] == src[t];
                old_self.lemma_entry(t);
            }
            assert(self@ =~= target);
        }
    }
}

/// Filtering keeps a sequence free of duplicates.
proof fn lemma_filter_no_duplicates(s: Seq<Seq<char>>, pred: spec_fn(Seq<char>) -> bool)
    requires
        s.no_duplicates(),
    ensures
        s.filter(pred).no_duplicates(),
    decreases s.len(),
{
    reveal_with_fuel(Seq::<Seq<char>>::filter, 1);
    if s.len() > 0 {
        let init = s.drop_last();
        assert(init.no_duplicates());
        lemma_filter_no_duplicates(init, pred);
        if pred(s.last()) {
            assert(!init.contains(s.last()));
            if init.filter(pred).contains(s.last()) {
                init.lemma_filter_contains_rev(pred, s.last());
            }
        }
    }
}

} // verus!

//! Small verified collections used throughout the compiler: an
//! association map with unique keys, which stands in for the hash maps the
//! passes thread between each other, and a duplicate-free symbol set used
//! by the data-flow analysis.

use vstd::prelude::*;

use crate::common::Symbol;

verus! {

/// A key type usable in an [`AssocMap`]: it abstracts to a mathematical
/// key and offers an executable equality that decides abstract equality.
pub trait MapKey: Sized {
    type KV;

    spec fn kview(&self) -> Self::KV;

    fn keq(&self, other: &Self) -> (r: bool)
        ensures
            r == (self.kview() == other.kview()),
    ;
}

impl MapKey for Symbol {
    type KV = Symbol;

    open spec fn kview(&self) -> Symbol {
        *self
    }

    fn keq(&self, other: &Self) -> (r: bool)
        ensures
            r == (self.kview() == other.kview()),
    {
        *self == *other
    }
}

impl MapKey for crate::common::Label {
    type KV = crate::common::Label;

    open spec fn kview(&self) -> crate::common::Label {
        *self
    }

    fn keq(&self, other: &Self) -> (r: bool)
        ensures
            r == (self.kview() == other.kview()),
    {
        *self == *other
    }
}

impl MapKey for usize {
    type KV = usize;

    open spec fn kview(&self) -> usize {
        *self
    }

    fn keq(&self, other: &Self) -> (r: bool)
        ensures
            r == (self.kview() == other.kview()),
    {
        *self == *other
    }
}

impl MapKey for String {
    type KV = Seq<char>;

    open spec fn kview(&self) -> Seq<char> {
        self.view()
    }

    fn keq(&self, other: &Self) -> (r: bool)
        ensures
            r == (self.kview() == other.kview()),
    {
        *self == *other
    }
}

/// A finite map stored as a vector of entries with pairwise distinct
/// keys.  Its mathematical content is the [`Map`] from abstract keys to
/// values; [`AssocMap::kseq`] additionally exposes the insertion order.
pub struct AssocMap<K: MapKey, V> {
    entries: Vec<(K, V)>,
}

impl<K: MapKey, V> AssocMap<K, V> {
    /// The map denoted by a prefix-closed reading of an entry list; a
    /// later entry would win, though well-formed maps have no duplicates.
    pub closed spec fn entries_map(s: Seq<(K, V)>) -> Map<K::KV, V>
        decreases s.len(),
    {
        if s.len() == 0 {
            Map::empty()
        } else {
            Self::entries_map(s.drop_last()).insert(s.last().0.kview(), s.last().1)
        }
    }

    pub closed spec fn view(self) -> Map<K::KV, V> {
        Self::entries_map(self.entries@)
    }

    /// The keys of the map, in insertion order.
    pub closed spec fn kseq(self) -> Seq<K::KV> {
        self.entries@.map(|i: int, e: (K, V)| e.0.kview())
    }

    /// Well-formed: the stored keys are pairwise distinct.
    pub closed spec fn wf(self) -> bool {
        forall|i: int, j: int|
            0 <= i < j < self.entries@.len() ==> (#[trigger] self.entries@[i].0.kview()) != (
            #[trigger] self.entries@[j].0.kview())
    }

    proof fn lemma_entries_map_props(s: Seq<(K, V)>)
        requires
            forall|i: int, j: int|
                0 <= i < j < s.len() ==> (#[trigger] s[i].0.kview()) != (#[trigger] s[j].0.kview()),
        ensures
            forall|kv: K::KV|
                Self::entries_map(s).contains_key(kv) <==> exists|i: int|
                    0 <= i < s.len() && (#[trigger] s[i].0.kview()) == kv,
            forall|i: int|
                0 <= i < s.len() ==> Self::entries_map(s)[(#[trigger] s[i]).0.kview()] == s[i].1,
            Self::entries_map(s).dom().finite(),
            Self::entries_map(s).dom().len() == s.len(),
        decreases s.len(),
    {
        if s.len() > 0 {
            Self::lemma_entries_map_props(s.drop_last());
            let prev = Self::entries_map(s.drop_last());
            let lastkv = s.last().0.kview();
            assert(!prev.contains_key(lastkv));
            assert forall|i: int| 0 <= i < s.len() implies Self::entries_map(s)[(
            #[trigger] s[i]).0.kview()] == s[i].1 by {
                if i < s.len() - 1 {
                    assert(s.drop_last()[i] == s[i]);
                    assert(s[i].0.kview() != lastkv);
                }
            }
            assert forall|kv: K::KV| Self::entries_map(s).contains_key(kv) implies exists|i: int|
                0 <= i < s.len() && (#[trigger] s[i].0.kview()) == kv by {
                if kv == lastkv {
                    assert((#[trigger] s[s.len() - 1].0.kview()) == kv);
                } else {
                    let i = choose|i: int|
                        0 <= i < s.drop_last().len() && (#[trigger] s.drop_last()[i].0.kview())
                            == kv;
                    assert(s[i].0.kview() == kv);
                }
            }
            assert forall|kv: K::KV|
                (exists|i: int| 0 <= i < s.len() && (#[trigger] s[i].0.kview()) == kv) implies Self::entries_map(
                s,
            ).contains_key(kv) by {
                let i = choose|i: int| 0 <= i < s.len() && (#[trigger] s[i].0.kview()) == kv;
                if i < s.len() - 1 {
                    assert(s.drop_last()[i] == s[i]);
                }
            }
        }
    }

    proof fn lemma_update(s: Seq<(K, V)>, i: int, k: K, v: V)
        requires
            forall|i1: int, j1: int|
                0 <= i1 < j1 < s.len() ==> (#[trigger] s[i1].0.kview()) != (
                #[trigger] s[j1].0.kview()),
            0 <= i < s.len(),
            s[i].0.kview() == k.kview(),
        ensures
            Self::entries_map(s.update(i, (k, v))) == Self::entries_map(s).insert(k.kview(), v),
            forall|i1: int, j1: int|
                0 <= i1 < j1 < s.update(i, (k, v)).len() ==> (#[trigger] s.update(
                    i,
                    (k, v),
                )[i1].0.kview()) != (#[trigger] s.update(i, (k, v))[j1].0.kview()),
        decreases s.len(),
    {
        let s2 = s.update(i, (k, v));
        assert forall|j1: int| 0 <= j1 < s2.len() implies s2[j1].0.kview() == if j1 == i {
            k.kview()
        } else {
            s[j1].0.kview()
        } by {}
        if i == s.len() - 1 {
            assert(s2.drop_last() =~= s.drop_last());
            assert(Self::entries_map(s2) == Self::entries_map(s.drop_last()).insert(k.kview(), v));
            assert(Self::entries_map(s).insert(k.kview(), v) =~= Self::entries_map(
                s.drop_last(),
            ).insert(k.kview(), v));
        } else {
            assert(s2.drop_last() =~= s.drop_last().update(i, (k, v)));
            Self::lemma_update(s.drop_last(), i, k, v);
            let last = s.last();
            assert(s2.last() == last);
            assert(Self::entries_map(s2) == Self::entries_map(s.drop_last()).insert(
                k.kview(),
                v,
            ).insert(last.0.kview(), last.1));
            assert(k.kview() != last.0.kview());
            assert(Self::entries_map(s.drop_last()).insert(k.kview(), v).insert(
                last.0.kview(),
                last.1,
            ) =~= Self::entries_map(s.drop_last()).insert(last.0.kview(), last.1).insert(
                k.kview(),
                v,
            ));
        }
    }

    pub fn new() -> (r: Self)
        ensures
            r.wf(),
            r@ == Map::<K::KV, V>::empty(),
            r.kseq() == Seq::<K::KV>::empty(),
    {
        let r = AssocMap { entries: Vec::new() };
        proof {
            assert(r.kseq() =~= Seq::<K::KV>::empty());
        }
        r
    }

    /// The number of bindings in the map.
    pub fn len(&self) -> (r: usize)
        requires
            self.wf(),
        ensures
            r == self@.dom().len(),
            r == self.kseq().len(),
    {
        proof {
            Self::lemma_entries_map_props(self.entries@);
        }
        self.entries.len()
    }

    #[verifier::loop_isolation(false)]
    pub fn contains_key(&self, k: &K) -> (r: bool)
        requires
            self.wf(),
        ensures
            r == self@.contains_key(k.kview()),
    {
        proof {
            Self::lemma_entries_map_props(self.entries@);
        }
        let mut i: usize = 0;
        while i < self.entries.len()
            invariant
                i <= self.entries@.len(),
                forall|j: int| 0 <= j < i ==> (#[trigger] self.entries@[j].0.kview()) != k.kview(),
            decreases self.entries@.len() - i,
        {
            if self.entries[i].0.keq(k) {
                return true;
            }
            i = i + 1;
        }
        false
    }

    #[verifier::loop_isolation(false)]
    pub fn get(&self, k: &K) -> (r: Option<&V>)
        requires
            self.wf(),
        ensures
            match r {
                Some(v) => self@.contains_key(k.kview()) && self@[k.kview()] == *v,
                None => !self@.contains_key(k.kview()),
            },
    {
        proof {
            Self::lemma_entries_map_props(self.entries@);
        }
        let mut i: usize = 0;
        while i < self.entries.len()
            invariant
                i <= self.entries@.len(),
                forall|j: int| 0 <= j < i ==> (#[trigger] self.entries@[j].0.kview()) != k.kview(),
            decreases self.entries@.len() - i,
        {
            if self.entries[i].0.keq(k) {
                return Some(&self.entries[i].1);
            }
            i = i + 1;
        }
        None
    }

    /// Binds `k` to `v`, replacing any previous binding.
    #[verifier::loop_isolation(false)]
    pub fn insert(&mut self, k: K, v: V)
        requires
            old(self).wf(),
        ensures
            final(self).wf(),
            final(self)@ == old(self)@.insert(k.kview(), v),
            final(self).kseq() == if old(self)@.contains_key(k.kview()) {
                old(self).kseq()
            } else {
                old(self).kseq().push(k.kview())
            },
    {
        proof {
            Self::lemma_entries_map_props(self.entries@);
        }
        let ghost s0 = self.entries@;
        let mut i: usize = 0;
        while i < self.entries.len()
            invariant
                self.entries@ == s0,
                i <= s0.len(),
                forall|j: int| 0 <= j < i ==> (#[trigger] s0[j].0.kview()) != k.kview(),
            decreases s0.len() - i,
        {
            if self.entries[i].0.keq(&k) {
                proof {
                    Self::lemma_update(s0, i as int, k, v);
                }
                self.entries.set(i, (k, v));
                proof {
                    assert(s0[i as int].0.kview() == k.kview());
                    assert forall|j: int| 0 <= j < s0.len() implies self.kseq()[j] == old(
                        self,
                    ).kseq()[j] by {
                        assert(self.kseq()[j] == self.entries@[j].0.kview());
                        assert(old(self).kseq()[j] == s0[j].0.kview());
                    }
                    assert(self.kseq() =~= old(self).kseq());
                }
                return ;
            }
            i = i + 1;
        }
        self.entries.push((k, v));
        proof {
            assert(self.entries@.drop_last() =~= s0);
            assert(self.kseq() =~= old(self).kseq().push(k.kview()));
        }
    }

    /// The number of entries, equal to `len`; usable for index iteration.
    pub fn num_entries(&self) -> (r: usize)
        ensures
            r == self.kseq().len(),
    {
        self.entries.len()
    }

    /// The key stored at position `i` of the insertion order.
    pub fn key_at(&self, i: usize) -> (r: &K)
        requires
            i < self.kseq().len(),
        ensures
            r.kview() == self.kseq()[i as int],
    {
        &self.entries[i].0
    }

    /// The value bound to the key at position `i` of the insertion order.
    pub fn val_at(&self, i: usize) -> (r: &V)
        requires
            self.wf(),
            i < self.kseq().len(),
        ensures
            self@.contains_key(self.kseq()[i as int]),
            *r == self@[self.kseq()[i as int]],
    {
        proof {
            Self::lemma_entries_map_props(self.entries@);
        }
        &self.entries[i].1
    }

    /// Every key of the map occurs in the insertion order, and the other
    /// way round.
    pub proof fn lemma_kseq_dom(self)
        requires
            self.wf(),
        ensures
            forall|i: int| 0 <= i < self.kseq().len() ==> self@.contains_key(#[trigger] self.kseq()[i]),
            forall|kv: K::KV|
                self@.contains_key(kv) ==> exists|i: int|
                    0 <= i < self.kseq().len() && (#[trigger] self.kseq()[i]) == kv,
            forall|i: int, j: int|
                0 <= i < j < self.kseq().len() ==> (#[trigger] self.kseq()[i]) != (
                #[trigger] self.kseq()[j]),
    {
        Self::lemma_entries_map_props(self.entries@);
        assert forall|i: int| 0 <= i < self.kseq().len() implies self@.contains_key(
            #[trigger] self.kseq()[i],
        ) by {
            assert(self.kseq()[i] == self.entries@[i].0.kview());
        }
        assert forall|kv: K::KV| self@.contains_key(kv) implies exists|i: int|
            0 <= i < self.kseq().len() && (#[trigger] self.kseq()[i]) == kv by {
            let i = choose|i: int|
                0 <= i < self.entries@.len() && (#[trigger] self.entries@[i].0.kview()) == kv;
            assert(self.kseq()[i] == kv);
        }
    }
}


impl<V: Copy> AssocMap<String, V> {
    /// A copy of a string-keyed map of copyable values, with the same
    /// bindings in the same order.
    #[verifier::loop_isolation(false)]
    pub fn copy_string_map(&self) -> (r: Self)
        requires
            self.wf(),
        ensures
            r.wf(),
            r@ == self@,
            r.kseq() == self.kseq(),
    {
        proof {
            self.lemma_kseq_dom();
        }
        let mut r: AssocMap<String, V> = AssocMap::new();
        let mut i: usize = 0;
        let n = self.num_entries();
        while i < n
            invariant
                i <= self.kseq().len(),
                n == self.kseq().len(),
                r.wf(),
                r.kseq() == self.kseq().take(i as int),
                forall|j: int|
                    0 <= j < i ==> r@.contains_key(#[trigger] self.kseq()[j]) && r@[self.kseq()[j]]
                        == self@[self.kseq()[j]],
            decreases n - i,
        {
            let k = self.key_at(i).clone();
            let v = *self.val_at(i);
            proof {
                r.lemma_kseq_dom();
                if r@.contains_key(k@) {
                    let j = choose|j: int|
                        0 <= j < r.kseq().len() && (#[trigger] r.kseq()[j]) == k@;
                    assert(self.kseq()[j] == k@);
                    assert(self.kseq()[i as int] == k@);
                    assert(false);
                }
            }
            r.insert(k, v);
            proof {
                assert(r.kseq() =~= self.kseq().take(i + 1));
            }
            i = i + 1;
        }
        proof {
            assert(self.kseq().take(n as int) =~= self.kseq());
            assert forall|kv: Seq<char>| self@.contains_key(kv) implies r@.contains_key(kv)
                && r@[kv] == self@[kv] by {
                let j = choose|j: int|
                    0 <= j < self.kseq().len() && (#[trigger] self.kseq()[j]) == kv;
            }
            assert forall|kv: Seq<char>| r@.contains_key(kv) implies self@.contains_key(kv) by {
                r.lemma_kseq_dom();
                let j = choose|j: int| 0 <= j < r.kseq().len() && (#[trigger] r.kseq()[j]) == kv;
                assert(self.kseq()[j] == kv);
            }
            assert(r@ =~= self@);
        }
        r
    }
}

/// A finite set of symbols stored without duplicates.
pub struct SymbolSet {
    elems: Vec<Symbol>,
}

/// Taking one more element of a sequence grows the corresponding set by
/// exactly that element.
proof fn lemma_to_set_take_step(s: Seq<Symbol>, i: int)
    requires
        0 <= i < s.len(),
    ensures
        s.take(i + 1).to_set() == s.take(i).to_set().insert(s[i]),
{
    assert forall|a: Symbol| s.take(i + 1).to_set().contains(a) implies s.take(
        i,
    ).to_set().insert(s[i]).contains(a) by {
        let j = choose|j: int| 0 <= j < s.take(i + 1).len() && (#[trigger] s.take(i + 1)[j]) == a;
        if j < i {
            assert(s.take(i)[j] == a);
            assert(s.take(i).contains(a));
        }
    }
    assert forall|a: Symbol| s.take(i).to_set().insert(s[i]).contains(a) implies s.take(
        i + 1,
    ).to_set().contains(a) by {
        if a == s[i] {
            assert(s.take(i + 1)[i] == a);
        } else {
            let j = choose|j: int| 0 <= j < s.take(i).len() && (#[trigger] s.take(i)[j]) == a;
            assert(s.take(i + 1)[j] == a);
        }
    }
    assert(s.take(i + 1).to_set() =~= s.take(i).to_set().insert(s[i]));
}

/// Pushing an element onto a sequence grows the corresponding set by
/// exactly that element.
proof fn lemma_to_set_push(s: Seq<Symbol>, x: Symbol)
    ensures
        s.push(x).to_set() == s.to_set().insert(x),
{
    assert forall|a: Symbol| s.push(x).to_set().contains(a) implies s.to_set().insert(x).contains(
        a,
    ) by {
        let j = choose|j: int| 0 <= j < s.push(x).len() && (#[trigger] s.push(x)[j]) == a;
        if j < s.len() {
            assert(s[j] == a);
            assert(s.contains(a));
        }
    }
    assert forall|a: Symbol| s.to_set().insert(x).contains(a) implies s.push(x).to_set().contains(
        a,
    ) by {
        if a == x {
            assert(s.push(x)[s.len() as int] == a);
        } else {
            let j = choose|j: int| 0 <= j < s.len() && (#[trigger] s[j]) == a;
            assert(s.push(x)[j] == a);
        }
    }
    assert(s.push(x).to_set() =~= s.to_set().insert(x));
}

impl SymbolSet {
    pub closed spec fn view(self) -> Set<Symbol> {
        self.elems@.to_set()
    }

    pub closed spec fn wf(self) -> bool {
        self.elems@.no_duplicates()
    }

    pub proof fn lemma_finite(self)
        ensures
            self@.finite(),
    {
        broadcast use vstd::seq_lib::seq_to_set_is_finite;

    }

    pub fn empty() -> (r: Self)
        ensures
            r.wf(),
            r@ == Set::<Symbol>::empty(),
    {
        let r = SymbolSet { elems: Vec::new() };
        proof {
            assert(r@ =~= Set::<Symbol>::empty());
        }
        r
    }

    #[verifier::loop_isolation(false)]
    pub fn contains(&self, s: Symbol) -> (r: bool)
        ensures
            r == self@.contains(s),
    {
        let mut i: usize = 0;
        while i < self.elems.len()
            invariant
                i <= self.elems@.len(),
                forall|j: int| 0 <= j < i ==> self.elems@[j] != s,
            decreases self.elems@.len() - i,
        {
            if self.elems[i] == s {
                assert(self.elems@.contains(s));
                return true;
            }
            i = i + 1;
        }
        assert(!self.elems@.contains(s));
        false
    }

    #[verifier::loop_isolation(false)]
    pub fn insert(&mut self, s: Symbol)
        requires
            old(self).wf(),
        ensures
            final(self).wf(),
            final(self)@ == old(self)@.insert(s),
    {
        let present = self.contains(s);
        if !present {
            let ghost s0 = self.elems@;
            self.elems.push(s);
            proof {
                lemma_to_set_push(s0, s);
                assert(!s0.contains(s));
                assert forall|i: int, j: int|
                    0 <= i < j < self.elems@.len() implies self.elems@[i] != self.elems@[j] by {
                    if j == s0.len() {
                        assert(self.elems@[i] == s0[i]);
                    }
                }
            }
        } else {
            proof {
                assert(old(self)@.contains(s));
                assert(old(self)@.insert(s) =~= old(self)@);
            }
        }
    }

    /// Builds the set holding exactly the given symbols.
    #[verifier::loop_isolation(false)]
    pub fn from_vec(v: &Vec<Symbol>) -> (r: Self)
        ensures
            r.wf(),
            r@ == v@.to_set(),
    {
        let mut r = SymbolSet::empty();
        let mut i: usize = 0;
        proof {
            assert(v@.take(0) =~= Seq::<Symbol>::empty());
            assert(r@ =~= v@.take(0).to_set());
        }
        while i < v.len()
            invariant
                i <= v@.len(),
                r.wf(),
                r@ == v@.take(i as int).to_set(),
            decreases v@.len() - i,
        {
            proof {
                lemma_to_set_take_step(v@, i as int);
            }
            let s = v[i];
            r.insert(s);
            i = i + 1;
        }
        proof {
            assert(v@.take(v@.len() as int) =~= v@);
        }
        r
    }

    /// The number of symbols in the set.
    pub fn len(&self) -> (r: usize)
        requires
            self.wf(),
        ensures
            r == self@.len(),
    {
        proof {
            self.elems@.unique_seq_to_set();
        }
        self.elems.len()
    }

    /// The set holding the symbols of both sets.
    #[verifier::loop_isolation(false)]
    pub fn union_with(&self, other: &SymbolSet) -> (r: SymbolSet)
        requires
            self.wf(),
            other.wf(),
        ensures
            r.wf(),
            r@ == self@.union(other@),
    {
        let mut r = SymbolSet::empty();
        let mut i: usize = 0;
        proof {
            assert(self.elems@.take(0) =~= Seq::<Symbol>::empty());
            assert(r@ =~= self.elems@.take(0).to_set());
        }
        while i < self.elems.len()
            invariant
                i <= self.elems@.len(),
                r.wf(),
                r@ == self.elems@.take(i as int).to_set(),
            decreases self.elems@.len() - i,
        {
            proof {
                lemma_to_set_take_step(self.elems@, i as int);
            }
            let s = self.elems[i];
            r.insert(s);
            i = i + 1;
        }
        proof {
            assert(self.elems@.take(self.elems@.len() as int) =~= self.elems@);
        }
        let mut j: usize = 0;
        proof {
            assert(other.elems@.take(0) =~= Seq::<Symbol>::empty());
            assert(r@ =~= self@.union(other.elems@.take(0).to_set()));
        }
        while j < other.elems.len()
            invariant
                j <= other.elems@.len(),
                r.wf(),
                r@ == self@.union(other.elems@.take(j as int).to_set()),
            decreases other.elems@.len() - j,
        {
            proof {
                lemma_to_set_take_step(other.elems@, j as int);
                assert(self@.union(other.elems@.take(j as int).to_set().insert(
                    other.elems@[j as int],
                )) =~= self@.union(other.elems@.take(j as int).to_set()).insert(
                    other.elems@[j as int],
                ));
            }
            let s = other.elems[j];
            r.insert(s);
            j = j + 1;
        }
        proof {
            assert(other.elems@.take(other.elems@.len() as int) =~= other.elems@);
        }
        r
    }

    /// The set holding the symbols of `self` that are not in `other`.
    #[verifier::loop_isolation(false)]
    pub fn difference_with(&self, other: &SymbolSet) -> (r: SymbolSet)
        requires
            self.wf(),
            other.wf(),
        ensures
            r.wf(),
            r@ == self@.difference(other@),
    {
        let mut r = SymbolSet::empty();
        let mut i: usize = 0;
        proof {
            assert(self.elems@.take(0) =~= Seq::<Symbol>::empty());
            assert(r@ =~= self.elems@.take(0).to_set().difference(other@));
        }
        while i < self.elems.len()
            invariant
                i <= self.elems@.len(),
                r.wf(),
                r@ == self.elems@.take(i as int).to_set().difference(other@),
            decreases self.elems@.len() - i,
        {
            proof {
                lemma_to_set_take_step(self.elems@, i as int);
            }
            let s = self.elems[i];
            if !other.contains(s) {
                r.insert(s);
                proof {
                    assert(self.elems@.take(i + 1).to_set().difference(other@)
                        =~= self.elems@.take(i as int).to_set().difference(other@).insert(s));
                }
            } else {
                proof {
                    assert(self.elems@.take(i + 1).to_set().difference(other@)
                        =~= self.elems@.take(i as int).to_set().difference(other@));
                }
            }
            i = i + 1;
        }
        proof {
            assert(self.elems@.take(self.elems@.len() as int) =~= self.elems@);
        }
        r
    }

    /// Decides whether every symbol of `self` is in `other`.
    #[verifier::loop_isolation(false)]
    pub fn is_subset_of(&self, other: &SymbolSet) -> (r: bool)
        ensures
            r == self@.subset_of(other@),
    {
        let mut i: usize = 0;
        while i < self.elems.len()
            invariant
                i <= self.elems@.len(),
                forall|j: int| 0 <= j < i ==> other@.contains(#[trigger] self.elems@[j]),
            decreases self.elems@.len() - i,
        {
            if !other.contains(self.elems[i]) {
                assert(self@.contains(self.elems@[i as int]));
                return false;
            }
            i = i + 1;
        }
        assert forall|a: Symbol| self@.contains(a) implies other@.contains(a) by {
            let j = choose|j: int| 0 <= j < self.elems@.len() && (#[trigger] self.elems@[j]) == a;
            assert(other@.contains(self.elems@[j]));
        }
        true
    }

    /// Decides whether the two sets hold the same symbols.
    #[verifier::loop_isolation(false)]
    pub fn same_as(&self, other: &SymbolSet) -> (r: bool)
        ensures
            r == (self@ == other@),
    {
        let fwd = self.is_subset_of(other);
        let bwd = other.is_subset_of(self);
        if fwd && bwd {
            proof {
                assert(self@ =~= other@);
            }
            true
        } else {
            false
        }
    }

    /// A set holding the same symbols.
    #[verifier::loop_isolation(false)]
    pub fn duplicate(&self) -> (r: Self)
        requires
            self.wf(),
        ensures
            r.wf(),
            r@ == self@,
    {
        let mut elems: Vec<Symbol> = Vec::new();
        let mut i: usize = 0;
        while i < self.elems.len()
            invariant
                i <= self.elems@.len(),
                elems@ == self.elems@.take(i as int),
            decreases self.elems@.len() - i,
        {
            elems.push(self.elems[i]);
            proof {
                assert(elems@ =~= self.elems@.take(i + 1));
            }
            i = i + 1;
        }
        proof {
            assert(self.elems@.take(self.elems@.len() as int) =~= self.elems@);
        }
        SymbolSet { elems }
    }

    /// The symbols of the set, each once.
    #[verifier::loop_isolation(false)]
    pub fn to_vec(&self) -> (r: Vec<Symbol>)
        requires
            self.wf(),
        ensures
            r@.to_set() == self@,
            r@.no_duplicates(),
    {
        let mut r: Vec<Symbol> = Vec::new();
        let mut i: usize = 0;
        while i < self.elems.len()
            invariant
                i <= self.elems@.len(),
                r@ == self.elems@.take(i as int),
            decreases self.elems@.len() - i,
        {
            r.push(self.elems[i]);
            proof {
                assert(r@ =~= self.elems@.take(i + 1));
            }
            i = i + 1;
        }
        proof {
            assert(self.elems@.take(self.elems@.len() as int) =~= self.elems@);
        }
        r
    }
}

} // verus!

//! Maps and sets held in ascending key order.
use crate::value::{Key, Rank, Value};
use vstd::prelude::*;

verus! {

/// Strictly ascending in the order of `K`.
pub open spec fn ascending<K: Key>(s: Seq<K::V>) -> bool {
    forall|i: int, j: int| 0 <= i < j < s.len() ==> #[trigger] K::before(s[i], s[j])
}

/// Whether `s` lists exactly the elements of `set`, in ascending order.
pub open spec fn lists<K: Key>(s: Seq<K::V>, set: Set<K::V>) -> bool {
    &&& ascending::<K>(s)
    &&& forall|k: K::V| #[trigger] s.contains(k) <==> set.contains(k)
}

/// The elements of a finite set in ascending order.
pub open spec fn listing<K: Key>(set: Set<K::V>) -> Seq<K::V> {
    choose|s: Seq<K::V>| lists::<K>(s, set)
}

proof fn ascending_drop_last<K: Key>(s: Seq<K::V>, set: Set<K::V>)
    requires
        lists::<K>(s, set),
        s.len() > 0,
    ensures
        lists::<K>(s.drop_last(), set.remove(s.last())),
        forall|k: K::V| set.contains(k) ==> k == s.last() || #[trigger] K::before(k, s.last()),
{
    let n = s.len() - 1;
    let t = s.drop_last();
    assert forall|i: int, j: int| 0 <= i < j < t.len() implies #[trigger] K::before(t[i], t[j]) by {
        assert(K::before(s[i], s[j]));
    }
    assert forall|k: K::V| #[trigger] t.contains(k) <==> set.remove(s.last()).contains(k) by {
        if t.contains(k) {
            let i = choose|i: int| 0 <= i < t.len() && t[i] == k;
            assert(s[i] == k);
            assert(s.contains(k));
            assert(K::before(s[i], s[n]));
            K::before_irreflexive(k);
        }
        if set.remove(s.last()).contains(k) {
            assert(s.contains(k));
            let i = choose|i: int| 0 <= i < s.len() && s[i] == k;
            assert(i != n);
            assert(t[i] == k);
        }
    }
    assert forall|k: K::V|
        set.contains(k) implies k == s.last() || #[trigger] K::before(k, s.last()) by {
        assert(s.contains(k));
        let i = choose|i: int| 0 <= i < s.len() && s[i] == k;
        if i < n {
            assert(K::before(s[i], s[n]));
        }
    }
}

/// A set has at most one ascending listing.
pub proof fn lists_unique<K: Key>(a: Seq<K::V>, b: Seq<K::V>, set: Set<K::V>)
    requires
        lists::<K>(a, set),
        lists::<K>(b, set),
    ensures
        a == b,
    decreases a.len(),
{
    if a.len() == 0 {
        if b.len() > 0 {
            assert(b.contains(b[0]));
            assert(a.contains(b[0]));
        }
        assert(a =~= b);
    } else {
        assert(a.contains(a[0]));
        assert(b.contains(a[0]));
        assert(b.len() > 0);
        let x = a.last();
        let y = b.last();
        assert(a.contains(x) && b.contains(y));
        ascending_drop_last::<K>(a, set);
        ascending_drop_last::<K>(b, set);
        assert(set.contains(x) && set.contains(y));
        if x != y {
            assert(K::before(y, x));
            assert(K::before(x, y));
            K::before_transitive(x, y, x);
            K::before_irreflexive(x);
        }
        lists_unique::<K>(a.drop_last(), b.drop_last(), set.remove(x));
        assert(a =~= a.drop_last().push(x));
        assert(b =~= b.drop_last().push(y));
    }
}

/// The listing of a set is the one sequence that lists it.
pub proof fn listing_is<K: Key>(s: Seq<K::V>, set: Set<K::V>)
    requires
        lists::<K>(s, set),
    ensures
        listing::<K>(set) == s,
{
    lists_unique::<K>(listing::<K>(set), s, set);
}

/// The members of a set that is listed are finite in number, as many as the listing has.
pub proof fn lists_finite<K: Key>(s: Seq<K::V>, set: Set<K::V>)
    requires
        lists::<K>(s, set),
    ensures
        set.finite(),
        set.len() == s.len(),
    decreases s.len(),
{
    if s.len() == 0 {
        assert forall|k: K::V| !set.contains(k) by {
            if set.contains(k) {
                assert(s.contains(k));
            }
        }
        assert(set =~= Set::empty());
    } else {
        ascending_drop_last::<K>(s, set);
        lists_finite::<K>(s.drop_last(), set.remove(s.last()));
        assert(s.contains(s.last()));
        assert(set =~= set.remove(s.last()).insert(s.last()));
    }
}

/// Every finite set has an ascending listing.
pub proof fn listing_exists<K: Key>(set: Set<K::V>)
    requires
        set.finite(),
    ensures
        lists::<K>(listing::<K>(set), set),
    decreases set.len(),
{
    if set.len() == 0 {
        assert(set =~= Set::empty());
        let s = Seq::<K::V>::empty();
        assert(lists::<K>(s, set));
    } else {
        let m = max_of::<K>(set);
        max_is_max::<K>(set);
        let rest = set.remove(m);
        listing_exists::<K>(rest);
        let r = listing::<K>(rest);
        let s = r.push(m);
        assert forall|i: int, j: int|
            0 <= i < j < s.len() implies #[trigger] K::before(s[i], s[j]) by {
            if j == r.len() {
                assert(r.contains(r[i]));
                assert(rest.contains(r[i]));
            } else {
                assert(K::before(r[i], r[j]));
            }
        }
        assert forall|k: K::V| #[trigger] s.contains(k) <==> set.contains(k) by {
            if s.contains(k) {
                let i = choose|i: int| 0 <= i < s.len() && s[i] == k;
                if i < r.len() {
                    assert(r.contains(r[i]));
                }
            }
            if set.contains(k) {
                if k == m {
                    assert(s[r.len() as int] == k);
                } else {
                    assert(r.contains(k));
                    let i = choose|i: int| 0 <= i < r.len() && r[i] == k;
                    assert(s[i] == k);
                }
            }
        }
        assert(lists::<K>(s, set));
    }
}

spec fn is_max<K: Key>(set: Set<K::V>, m: K::V) -> bool {
    set.contains(m) && forall|k: K::V| set.contains(k) ==> k == m || #[trigger] K::before(k, m)
}

spec fn max_of<K: Key>(set: Set<K::V>) -> K::V {
    choose|m: K::V| is_max::<K>(set, m)
}

proof fn max_is_max<K: Key>(set: Set<K::V>)
    requires
        set.finite(),
        set.len() > 0,
    ensures
        is_max::<K>(set, max_of::<K>(set)),
    decreases set.len(),
{
    let x = set.choose();
    let rest = set.remove(x);
    if rest.len() == 0 {
        assert(rest =~= Set::empty());
        assert forall|k: K::V| set.contains(k) implies k == x || #[trigger] K::before(k, x) by {
            assert(!rest.contains(k));
        }
        assert(is_max::<K>(set, x));
    } else {
        max_is_max::<K>(rest);
        let y = max_of::<K>(rest);
        K::before_total(x, y);
        if K::before(x, y) {
            assert forall|k: K::V| set.contains(k) implies k == y || #[trigger] K::before(k, y) by {
                if k != x {
                    assert(rest.contains(k));
                }
            }
            assert(is_max::<K>(set, y));
        } else {
            assert forall|k: K::V| set.contains(k) implies k == x || #[trigger] K::before(k, x) by {
                if k != x {
                    assert(rest.contains(k));
                    if k != y {
                        K::before_transitive(k, y, x);
                    }
                }
            }
            assert(is_max::<K>(set, x));
        }
    }
}

/// The elements among the first `i` of `keys` that satisfy `p`.
pub open spec fn selected<K: Key>(keys: Seq<K::V>, i: int, p: spec_fn(K::V) -> bool) -> Set<K::V> {
    Set::new(|k: K::V| keys.take(i).contains(k) && p(k))
}

/// Nothing is selected before the first key.
pub proof fn select_none<K: Key>(keys: Seq<K::V>, p: spec_fn(K::V) -> bool)
    ensures
        lists::<K>(Seq::empty(), selected::<K>(keys, 0, p)),
{
    assert forall|k: K::V| !selected::<K>(keys, 0, p).contains(k) by {
        assert(keys.take(0).len() == 0);
    }
}

/// One more key is looked at: it joins the end of the listing if it satisfies `p`.
pub proof fn select_step<K: Key>(
    keys: Seq<K::V>,
    i: int,
    p: spec_fn(K::V) -> bool,
    out: Seq<K::V>,
)
    requires
        ascending::<K>(keys),
        0 <= i < keys.len(),
        lists::<K>(out, selected::<K>(keys, i, p)),
    ensures
        p(keys[i]) ==> lists::<K>(out.push(keys[i]), selected::<K>(keys, i + 1, p)),
        !p(keys[i]) ==> lists::<K>(out, selected::<K>(keys, i + 1, p)),
{
    let k = keys[i];
    let before = selected::<K>(keys, i, p);
    let after = selected::<K>(keys, i + 1, p);
    assert(keys.take(i + 1) =~= keys.take(i).push(k));
    assert forall|x: K::V| #[trigger]
        keys.take(i + 1).contains(x) <==> keys.take(i).contains(x) || x == k by {
        if keys.take(i).contains(x) {
            let j = choose|j: int| 0 <= j < i && keys.take(i)[j] == x;
            assert(keys.take(i + 1)[j] == x);
        }
        assert(keys.take(i + 1)[i] == k);
    }
    assert forall|x: K::V| before.contains(x) implies #[trigger] K::before(x, k) by {
        let j = choose|j: int| 0 <= j < i && keys.take(i)[j] == x;
        assert(keys[j] == x);
        assert(K::before(keys[j], keys[i]));
    }
    if p(k) {
        lists_push::<K>(out, before, k);
        assert(after =~= before.insert(k));
    } else {
        assert(after =~= before);
    }
}

/// A key past all that are listed joins the end of the listing.
pub proof fn lists_push<K: Key>(s: Seq<K::V>, set: Set<K::V>, k: K::V)
    requires
        lists::<K>(s, set),
        forall|x: K::V| set.contains(x) ==> #[trigger] K::before(x, k),
    ensures
        lists::<K>(s.push(k), set.insert(k)),
{
    let t = s.push(k);
    assert forall|i: int, j: int| 0 <= i < j < t.len() implies #[trigger] K::before(t[i], t[j]) by {
        if j == s.len() {
            assert(s.contains(s[i]));
        } else {
            assert(K::before(s[i], s[j]));
        }
    }
    assert forall|x: K::V| #[trigger] t.contains(x) <==> set.insert(k).contains(x) by {
        if t.contains(x) {
            let i = choose|i: int| 0 <= i < t.len() && t[i] == x;
            if i < s.len() {
                assert(s.contains(s[i]));
            }
        }
        if set.contains(x) {
            assert(s.contains(x));
            let i = choose|i: int| 0 <= i < s.len() && s[i] == x;
            assert(t[i] == x);
        }
        assert(t[s.len() as int] == k);
    }
}

/// Once every key has been looked at, the listing is that of the keys that satisfy `p`.
pub proof fn select_done<K: Key>(
    keys: Seq<K::V>,
    dom: Set<K::V>,
    p: spec_fn(K::V) -> bool,
    out: Seq<K::V>,
)
    requires
        lists::<K>(keys, dom),
        lists::<K>(out, selected::<K>(keys, keys.len() as int, p)),
    ensures
        lists::<K>(out, dom.filter(p)),
        out == listing::<K>(dom.filter(p)),
{
    assert(keys.take(keys.len() as int) =~= keys);
    assert(selected::<K>(keys, keys.len() as int, p) =~= dom.filter(p)) by {
        assert forall|k: K::V| selected::<K>(keys, keys.len() as int, p).contains(k)
            <==> dom.filter(p).contains(k) by {
            assert(keys.contains(k) <==> dom.contains(k));
        }
    }
    listing_is::<K>(out, dom.filter(p));
}

/// A map from keys to values, held as pairs in strictly ascending key order.
#[derive(Debug, PartialEq, Eq)]
pub struct SortedMap<K: Key, V: Value> {
    entries: Vec<(K, V)>,
}

spec fn keys_of<K: Key, V: Value>(s: Seq<(K, V)>) -> Seq<K::V> {
    Seq::new(s.len(), |i: int| s[i].0.deep_view())
}

impl<K: Key, V: Value> SortedMap<K, V> {
    #[verifier::type_invariant]
    spec fn well_formed(self) -> bool {
        ascending::<K>(keys_of(self.entries@))
    }

    /// The keys in the order in which they are held.
    pub closed spec fn keys(self) -> Seq<K::V> {
        keys_of(self.entries@)
    }

    /// The values in the order in which they are held.
    pub closed spec fn values(self) -> Seq<V::V> {
        Seq::new(self.entries@.len(), |i: int| self.entries@[i].1.deep_view())
    }
}

impl<K: Key, V: Value> DeepView for SortedMap<K, V> {
    type V = Map<K::V, V::V>;

    open spec fn deep_view(&self) -> Map<K::V, V::V> {
        Map::new(
            |k: K::V| self.keys().contains(k),
            |k: K::V| self.values()[self.keys().index_of(k)],
        )
    }
}

impl<K: Key, V: Value> View for SortedMap<K, V> {
    type V = Map<K::V, V::V>;

    open spec fn view(&self) -> Map<K::V, V::V> {
        self.deep_view()
    }
}

/// What holds of every sorted map: the keys are listed in ascending order, each beside its value.
pub open spec fn in_order<K: Key, V: Value>(m: SortedMap<K, V>) -> bool {
    &&& lists::<K>(m.keys(), m@.dom())
    &&& m.keys().len() == m.values().len()
    &&& m.keys() == listing::<K>(m@.dom())
    &&& m@.dom().finite()
    &&& m@.dom().len() == m.keys().len()
    &&& forall|i: int|
        0 <= i < m.keys().len() ==> m@.contains_key(#[trigger] m.keys()[i]) && m@[m.keys()[i]]
            == m.values()[i]
}

proof fn in_order_holds<K: Key, V: Value>(m: SortedMap<K, V>)
    requires
        m.well_formed(),
    ensures
        in_order(m),
{
    let ks = m.keys();
    assert forall|i: int| 0 <= i < ks.len() implies m@.contains_key(#[trigger] ks[i]) && m@[ks[i]]
        == m.values()[i] by {
        assert(ks.contains(ks[i]));
        let j = ks.index_of(ks[i]);
        assert(0 <= j < ks.len() && ks[j] == ks[i]);
        if i < j {
            assert(K::before(ks[i], ks[j]));
            K::before_irreflexive(ks[i]);
        } else if j < i {
            assert(K::before(ks[j], ks[i]));
            K::before_irreflexive(ks[i]);
        }
    }
    assert(lists::<K>(ks, m@.dom()));
    listing_is::<K>(ks, m@.dom());
    lists_finite::<K>(ks, m@.dom());
}

impl<K: Key, V: Value> SortedMap<K, V> {
    /// The empty map.
    pub fn new() -> (r: Self)
        ensures
            r@ == Map::<K::V, V::V>::empty(),
    {
        let r = SortedMap { entries: Vec::new() };
        assert(r@ =~= Map::<K::V, V::V>::empty());
        r
    }

    /// How many keys the map holds.
    pub fn len(&self) -> (n: usize)
        ensures
            n == self.keys().len(),
            in_order(*self),
    {
        proof {
            use_type_invariant(self);
            in_order_holds(*self);
        }
        self.entries.len()
    }

    /// Whether the map holds no key.
    pub fn is_empty(&self) -> (b: bool)
        ensures
            b <==> self@.dom() =~= Set::empty(),
    {
        proof {
            use_type_invariant(self);
            in_order_holds(*self);
            if self.entries@.len() > 0 {
                assert(self@.contains_key(self.keys()[0]));
            } else {
                assert(self@.dom() =~= Set::empty());
            }
        }
        self.entries.is_empty()
    }

    /// The key at position `i` of the ascending order.
    pub fn key_at(&self, i: usize) -> (k: &K)
        requires
            i < self.keys().len(),
        ensures
            k.deep_view() == self.keys()[i as int],
    {
        &self.entries[i].0
    }

    /// The value at position `i` of the ascending order.
    pub fn value_at(&self, i: usize) -> (v: &V)
        requires
            i < self.keys().len(),
        ensures
            v.deep_view() == self.values()[i as int],
    {
        &self.entries[i].1
    }

    /// The position of `key`, or the position at which it would be inserted.
    fn find(&self, key: &K) -> (r: Result<usize, usize>)
        ensures
            match r {
                Ok(i) => i < self.entries@.len() && self.keys()[i as int] == key.deep_view(),
                Err(i) => {
                    &&& i <= self.entries@.len()
                    &&& forall|j: int|
                        0 <= j < i ==> K::before(#[trigger] self.keys()[j], key.deep_view())
                    &&& forall|j: int|
                        i <= j < self.entries@.len() ==> K::before(
                            key.deep_view(),
                            #[trigger] self.keys()[j],
                        )
                },
            },
    {
        proof {
            use_type_invariant(self);
        }
        let mut lo: usize = 0;
        let mut hi: usize = self.entries.len();
        while lo < hi
            invariant
                lo <= hi <= self.entries@.len(),
                ascending::<K>(self.keys()),
                self.keys() == keys_of(self.entries@),
                forall|j: int| 0 <= j < lo ==> K::before(
                    #[trigger] self.keys()[j],
                    key.deep_view(),
                ),
                forall|j: int|
                    hi <= j < self.entries@.len() ==> K::before(
                        key.deep_view(),
                        #[trigger] self.keys()[j],
                    ),
            decreases hi - lo,
        {
            let mid: usize = lo + (hi - lo) / 2;
            match self.entries[mid].0.rank(key) {
                Rank::Same => {
                    return Ok(mid);
                },
                Rank::Before => {
                    proof {
                        let m = self.keys()[mid as int];
                        assert forall|j: int| 0 <= j < mid + 1 implies K::before(
                            #[trigger] self.keys()[j],
                            key.deep_view(),
                        ) by {
                            if j < mid {
                                assert(K::before(self.keys()[j], m));
                                K::before_transitive(self.keys()[j], m, key.deep_view());
                            }
                        }
                    }
                    lo = mid + 1;
                },
                Rank::After => {
                    proof {
                        let m = self.keys()[mid as int];
                        assert forall|j: int| mid <= j < self.entries@.len() implies K::before(
                            key.deep_view(),
                            #[trigger] self.keys()[j],
                        ) by {
                            if mid < j {
                                assert(K::before(m, self.keys()[j]));
                                K::before_transitive(key.deep_view(), m, self.keys()[j]);
                            }
                        }
                    }
                    hi = mid;
                },
            }
        }
        Err(lo)
    }

    /// The value under `key`, if the map holds one.
    pub fn get(&self, key: &K) -> (r: Option<&V>)
        ensures
            match r {
                Some(v) => self@.contains_key(key.deep_view()) && v.deep_view()
                    == self@[key.deep_view()],
                None => !self@.contains_key(key.deep_view()),
            },
    {
        let found = self.find(key);
        proof {
            use_type_invariant(self);
            in_order_holds(*self);
            self.absent_when_between(key.deep_view(), found);
        }
        match found {
            Ok(i) => Some(&self.entries[i].1),
            Err(_) => None,
        }
    }

    proof fn absent_when_between(self, k: K::V, found: Result<usize, usize>)
        requires
            self.well_formed(),
        ensures
            found matches Err(i) && (forall|j: int|
                0 <= j < i ==> K::before(#[trigger] self.keys()[j], k)) && (forall|j: int|
                i <= j < self.entries@.len() ==> K::before(k, #[trigger] self.keys()[j]))
                ==> !self.keys().contains(k),
    {
        if self.keys().contains(k) {
            let j = choose|j: int| 0 <= j < self.keys().len() && self.keys()[j] == k;
            K::before_irreflexive(k);
            assert(self.keys()[j] == k);
        }
    }

    /// Whether the map holds `key`.
    pub fn contains_key(&self, key: &K) -> (b: bool)
        ensures
            b == self@.contains_key(key.deep_view()),
    {
        self.get(key).is_some()
    }

    /// Puts `value` under `key`, in place of what stood there.
    pub fn insert(&mut self, key: K, value: V)
        ensures
            final(self)@ == old(self)@.insert(key.deep_view(), value.deep_view()),
    {
        let ghost k = key.deep_view();
        let ghost v = value.deep_view();
        let ghost before = *self;
        let found = self.find(&key);
        proof {
            use_type_invariant(&*self);
            in_order_holds(*self);
            self.absent_when_between(k, found);
        }
        let mut entries: Vec<(K, V)> = Vec::new();
        std::mem::swap(&mut entries, &mut self.entries);
        match found {
            Ok(i) => {
                entries[i] = (key, value);
                proof {
                    assert(keys_of(entries@) =~= keys_of(before.entries@));
                }
            },
            Err(i) => {
                entries.insert(i, (key, value));
                proof {
                    let ks = keys_of(entries@);
                    let ks0 = keys_of(before.entries@);
                    assert(ks =~= ks0.insert(i as int, k));
                    assert forall|a: int, b: int|
                        0 <= a < b < ks.len() implies #[trigger] K::before(ks[a], ks[b]) by {
                        let a0 = if a < i { a } else { a - 1 };
                        let b0 = if b < i { b } else { b - 1 };
                        if a != i && b != i {
                            assert(K::before(ks0[a0], ks0[b0]));
                        } else if a == i {
                            assert(ks[b] == ks0[b0]);
                        } else {
                            assert(ks[a] == ks0[a0]);
                        }
                    }
                }
            },
        }
        self.entries = entries;
        proof {
            in_order_holds(*self);
            let m = self@;
            let m0 = before@.insert(k, v);
            assert forall|x: K::V| m.contains_key(x) <==> m0.contains_key(x) by {
                match found {
                    Ok(i) => {
                        assert(self.keys() =~= before.keys());
                        assert(before@.contains_key(before.keys()[i as int]));
                    },
                    Err(i) => {
                        let ks = self.keys();
                        let ks0 = before.keys();
                        assert(ks =~= ks0.insert(i as int, k));
                        if ks.contains(x) {
                            let a = choose|a: int| 0 <= a < ks.len() && ks[a] == x;
                            if a < i {
                                assert(ks0[a] == x);
                            } else if a > i {
                                assert(ks0[a - 1] == x);
                            }
                        }
                        if ks0.contains(x) {
                            let a = choose|a: int| 0 <= a < ks0.len() && ks0[a] == x;
                            if a < i {
                                assert(ks[a] == x);
                            } else {
                                assert(ks[a + 1] == x);
                            }
                        }
                        assert(ks[i as int] == k);
                    },
                }
            }
            assert forall|x: K::V| m.contains_key(x) implies m[x] == m0[x] by {
                let a = choose|a: int| 0 <= a < self.keys().len() && self.keys()[a] == x;
                assert(m[self.keys()[a]] == self.values()[a]);
                let i: int = match found {
                    Ok(i) => i as int,
                    Err(i) => i as int,
                };
                if a == i {
                    assert(x == k);
                    assert(self.values()[a] == v);
                } else {
                    assert(self.keys()[i] == k);
                    if x == k {
                        if a < i {
                            assert(K::before(self.keys()[a], self.keys()[i]));
                        } else {
                            assert(K::before(self.keys()[i], self.keys()[a]));
                        }
                        K::before_irreflexive(k);
                    }
                    let a0 = if found is Ok || a < i { a } else { a - 1 };
                    assert(before.keys()[a0] == x);
                    assert(before@[before.keys()[a0]] == before.values()[a0]);
                }
            }
            assert(m =~= m0);
        }
    }

    /// Takes `key` out of the map and hands back what stood under it.
    pub fn remove(&mut self, key: &K) -> (r: Option<V>)
        ensures
            final(self)@ == old(self)@.remove(key.deep_view()),
            match r {
                Some(v) => old(self)@.contains_key(key.deep_view()) && v.deep_view() == old(
                    self,
                )@[key.deep_view()],
                None => !old(self)@.contains_key(key.deep_view()),
            },
    {
        let ghost k = key.deep_view();
        let ghost before = *self;
        let found = self.find(key);
        proof {
            use_type_invariant(&*self);
            in_order_holds(*self);
            self.absent_when_between(k, found);
        }
        match found {
            Err(_) => {
                assert(self@.remove(k) =~= self@);
                None
            },
            Ok(i) => {
                let mut entries: Vec<(K, V)> = Vec::new();
                std::mem::swap(&mut entries, &mut self.entries);
                let taken: (K, V) = entries.remove(i);
                proof {
                    let ks = keys_of(entries@);
                    let ks0 = keys_of(before.entries@);
                    assert(ks =~= ks0.remove(i as int));
                    assert forall|a: int, b: int|
                        0 <= a < b < ks.len() implies #[trigger] K::before(ks[a], ks[b]) by {
                        let a0 = if a < i { a } else { a + 1 };
                        let b0 = if b < i { b } else { b + 1 };
                        assert(K::before(ks0[a0], ks0[b0]));
                    }
                }
                self.entries = entries;
                proof {
                    in_order_holds(*self);
                    let m = self@;
                    let m0 = before@.remove(k);
                    let ks = self.keys();
                    let ks0 = before.keys();
                    assert(ks =~= ks0.remove(i as int));
                    assert forall|x: K::V| m.contains_key(x) <==> m0.contains_key(x) by {
                        if ks.contains(x) {
                            let a = choose|a: int| 0 <= a < ks.len() && ks[a] == x;
                            let a0 = if a < i { a } else { a + 1 };
                            assert(ks0[a0] == x);
                            if x == k {
                                if a0 < i {
                                    assert(K::before(ks0[a0], ks0[i as int]));
                                } else {
                                    assert(K::before(ks0[i as int], ks0[a0]));
                                }
                                K::before_irreflexive(k);
                            }
                        }
                        if ks0.contains(x) && x != k {
                            let a0 = choose|a: int| 0 <= a < ks0.len() && ks0[a] == x;
                            let a = if a0 < i { a0 } else { a0 - 1 };
                            assert(ks[a] == x);
                        }
                    }
                    assert forall|x: K::V| m.contains_key(x) implies m[x] == m0[x] by {
                        let a = choose|a: int| 0 <= a < ks.len() && ks[a] == x;
                        let a0 = if a < i { a } else { a + 1 };
                        assert(m[ks[a]] == self.values()[a]);
                        assert(before@[ks0[a0]] == before.values()[a0]);
                    }
                    assert(m =~= m0);
                    assert(before@[ks0[i as int]] == before.values()[i as int]);
                }
                Some(taken.1)
            },
        }
    }
}

impl<K: Key, V: Value> SortedMap<K, V> {
    /// Takes every key of `keys` out of the map.
    pub fn remove_all(&mut self, keys: &Vec<K>)
        ensures
            final(self)@ == old(self)@.remove_keys(keys.deep_view().to_set()),
    {
        let mut i: usize = 0;
        let ghost all = keys.deep_view();
        assert(all.take(0).to_set() =~= Set::empty());
        assert(self@ =~= old(self)@.remove_keys(all.take(0).to_set()));
        while i < keys.len()
            invariant
                i <= keys@.len(),
                all == keys.deep_view(),
                self@ == old(self)@.remove_keys(all.take(i as int).to_set()),
            decreases keys@.len() - i,
        {
            self.remove(&keys[i]);
            proof {
                let k = all[i as int];
                let t = all.take(i as int);
                let t1 = all.take(i + 1);
                assert(t1 =~= t.push(k));
                assert forall|x: K::V| t1.to_set().contains(x) <==> t.to_set().contains(x) || x
                    == k by {
                    if t.contains(x) {
                        let j = choose|j: int| 0 <= j < t.len() && t[j] == x;
                        assert(t1[j] == x);
                    }
                    assert(t1[i as int] == k);
                }
                assert(self@ =~= old(self)@.remove_keys(t1.to_set()));
            }
            i = i + 1;
        }
        assert(all.take(i as int) =~= all);
    }
}

/// One more element of a prefix.
pub proof fn take_grows<A>(s: Seq<A>, i: int)
    requires
        0 <= i < s.len(),
    ensures
        forall|x: A| #[trigger] s.take(i + 1).contains(x) <==> s.take(i).contains(x) || x == s[i],
{
    assert(s.take(i + 1) =~= s.take(i).push(s[i]));
    assert forall|x: A| #[trigger] s.take(i + 1).contains(x) <==> s.take(i).contains(x) || x
        == s[i] by {
        if s.take(i).contains(x) {
            let j = choose|j: int| 0 <= j < i && s.take(i)[j] == x;
            assert(s.take(i + 1)[j] == x);
        }
        assert(s.take(i + 1)[i] == s[i]);
    }
}

/// What stands under a key, if anything does.
pub open spec fn lookup<K, V>(m: Map<K, V>, k: K) -> Option<V> {
    if m.contains_key(k) {
        Some(m[k])
    } else {
        None
    }
}

/// The named keys beside what stands under them.
pub open spec fn pairs<K, V>(m: Map<K, V>, ids: Seq<K>) -> Seq<(K, V)> {
    Seq::new(ids.len(), |i: int| (ids[i], m[ids[i]]))
}

/// The map that rows make up, the last of those of one key.
pub open spec fn collected<K, V>(rows: Seq<(K, V)>) -> Map<K, V>
    decreases rows.len(),
{
    if rows.len() == 0 {
        Map::empty()
    } else {
        collected(rows.drop_last()).insert(rows.last().0, rows.last().1)
    }
}

/// The rows of a map make up the map.
pub proof fn rows_make_up_the_map<K, V>(m: Map<K, V>, ids: Seq<K>)
    requires
        forall|k: K| #[trigger] ids.contains(k) <==> m.contains_key(k),
    ensures
        collected(pairs(m, ids)) == m,
{
    first_rows_make_up(m, ids, ids.len() as int);
    assert(ids.take(ids.len() as int) =~= ids);
    assert(collected(pairs(m, ids)) =~= m);
}

proof fn first_rows_make_up<K, V>(m: Map<K, V>, ids: Seq<K>, n: int)
    requires
        0 <= n <= ids.len(),
    ensures
        forall|k: K| #[trigger]
            collected(pairs(m, ids.take(n))).contains_key(k) <==> ids.take(n).contains(k),
        forall|k: K|
            ids.take(n).contains(k) ==> #[trigger] collected(pairs(m, ids.take(n)))[k] == m[k],
    decreases n,
{
    if n > 0 {
        first_rows_make_up(m, ids, n - 1);
        take_grows(ids, n - 1);
        let before = collected(pairs(m, ids.take(n - 1)));
        let after = collected(pairs(m, ids.take(n)));
        let k = ids[n - 1];
        assert(pairs(m, ids.take(n)).drop_last() =~= pairs(m, ids.take(n - 1)));
        assert(pairs(m, ids.take(n)).last() == (k, m[k]));
        assert(after == before.insert(k, m[k]));
        assert forall|x: K| #[trigger]
            after.contains_key(x) <==> ids.take(n).contains(x) by {
            assert(ids.take(n - 1 + 1).contains(x) <==> ids.take(n - 1).contains(x) || x == k);
            assert(before.contains_key(x) <==> ids.take(n - 1).contains(x));
        }
        assert forall|x: K| ids.take(n).contains(x) implies #[trigger] after[x] == m[x] by {
            assert(ids.take(n - 1 + 1).contains(x) <==> ids.take(n - 1).contains(x) || x == k);
            assert(x != k ==> before[x] == m[x]);
        }
    }
}

impl<K: Key, V: Value> SortedMap<K, V> {
    /// The keys beside their values, in ascending order.
    pub fn rows(&self) -> (r: Vec<(&K, &V)>)
        ensures
            r.deep_view() == pairs(self@, listing::<K>(self@.dom())),
            in_order(*self),
    {
        let n: usize = self.len();
        let ghost keys = self.keys();
        let mut out: Vec<(&K, &V)> = Vec::new();
        let mut i: usize = 0;
        assert(out.deep_view() =~= pairs(self@, keys.take(0)));
        while i < n
            invariant
                i <= n,
                n == keys.len(),
                keys == self.keys(),
                in_order(*self),
                out.deep_view() == pairs(self@, keys.take(i as int)),
            decreases n - i,
        {
            let ghost before = out.deep_view();
            out.push((self.key_at(i), self.value_at(i)));
            proof {
                assert(self@[keys[i as int]] == self.values()[i as int]);
                assert(out.deep_view() =~= before.push((keys[i as int], self@[keys[i as int]])));
                assert(keys.take(i + 1) =~= keys.take(i as int).push(keys[i as int]));
                assert(out.deep_view() =~= pairs(self@, keys.take(i + 1)));
            }
            i = i + 1;
        }
        assert(keys.take(n as int) =~= keys);
        out
    }

    /// The map that `rows` make up; of rows with the same key, the last one counts.
    pub fn from_rows(rows: Vec<(K, V)>) -> (r: Self)
        ensures
            r@ == collected(rows.deep_view()),
    {
        let ghost all = rows.deep_view();
        let mut m: SortedMap<K, V> = SortedMap::new();
        let mut i: usize = 0;
        assert(all.take(0) =~= Seq::empty());
        while i < rows.len()
            invariant
                i <= rows@.len(),
                all == rows.deep_view(),
                all.len() == rows@.len(),
                m@ == collected(all.take(i as int)),
            decreases rows@.len() - i,
        {
            proof {
                assert(all.take(i + 1).drop_last() =~= all.take(i as int));
                assert(all.take(i + 1).last() == rows@[i as int].deep_view());
            }
            m.insert(rows[i].0.dup(), rows[i].1.dup());
            i = i + 1;
        }
        assert(all.take(i as int) =~= all);
        m
    }

    /// Puts every entry of `other` into the map, in place of what stood under the same key.
    pub fn insert_all(&mut self, other: &SortedMap<K, V>)
        ensures
            final(self)@ == old(self)@.union_prefer_right(other@),
    {
        let n: usize = other.len();
        let ghost keys = other.keys();
        let ghost before = self@;
        let mut i: usize = 0;
        while i < n
            invariant
                i <= n,
                n == keys.len(),
                keys == other.keys(),
                in_order(*other),
                forall|k: K::V| #[trigger]
                    self@.contains_key(k) <==> before.contains_key(k) || keys.take(
                        i as int,
                    ).contains(k),
                forall|k: K::V| #[trigger]
                    self@.contains_key(k) ==> self@[k] == (if keys.take(i as int).contains(k) {
                        other@[k]
                    } else {
                        before[k]
                    }),
            decreases n - i,
        {
            proof {
                take_grows(keys, i as int);
                assert(other@[keys[i as int]] == other.values()[i as int]);
            }
            self.insert(other.key_at(i).dup(), other.value_at(i).dup());
            i = i + 1;
        }
        proof {
            assert(keys.take(n as int) =~= keys);
            assert forall|k: K::V| #[trigger] keys.contains(k) <==> other@.contains_key(k) by {
                assert(keys.contains(k) <==> other@.dom().contains(k));
            }
            assert(self@ =~= before.union_prefer_right(other@));
        }
    }
}

impl<K: Key, V: Value> Value for SortedMap<K, V> {
    fn dup(&self) -> (r: Self) {
        proof {
            use_type_invariant(self);
        }
        let entries: Vec<(K, V)> = self.entries.dup();
        proof {
            assert(entries@.len() == entries.deep_view().len());
            assert(self.entries@.len() == self.entries.deep_view().len());
            assert forall|i: int| 0 <= i < entries@.len() implies
                (#[trigger] entries@[i]).deep_view() == self.entries@[i].deep_view() by {
                assert(entries.deep_view()[i] == self.entries.deep_view()[i]);
            }
            assert(keys_of(entries@) =~= keys_of(self.entries@));
        }
        let r = SortedMap { entries };
        proof {
            assert(r.keys() =~= self.keys());
            assert(r.values() =~= self.values());
            assert(r@ =~= self@);
        }
        r
    }

    fn same(&self, other: &Self) -> (b: bool) {
        proof {
            use_type_invariant(self);
            use_type_invariant(other);
            in_order_holds(*self);
            in_order_holds(*other);
        }
        let b: bool = self.entries.same(&other.entries);
        proof {
            let es = self.entries.deep_view();
            let os = other.entries.deep_view();
            if b {
                assert forall|i: int| 0 <= i < es.len() implies self.keys()[i] == other.keys()[i]
                    && self.values()[i] == other.values()[i] by {
                    assert(es[i] == os[i]);
                }
                assert(es.len() == os.len());
                assert(self.keys() =~= other.keys());
                assert(self.values() =~= other.values());
                assert(self@ =~= other@);
            } else if self@ == other@ {
                assert(self.keys() == other.keys());
                assert forall|i: int| 0 <= i < es.len() implies es[i] == os[i] by {
                    assert(self@[self.keys()[i]] == self.values()[i]);
                    assert(other@[other.keys()[i]] == other.values()[i]);
                }
                assert(es.len() == self.keys().len());
                assert(os.len() == other.keys().len());
                assert(es =~= os);
            }
        }
        b
    }
}

impl<K: Key, V: Value> Clone for SortedMap<K, V> {
    fn clone(&self) -> (r: Self)
        ensures
            r@ == self@,
    {
        self.dup()
    }
}

impl<K: Key, V: Value> Default for SortedMap<K, V> {
    fn default() -> (r: Self)
        ensures
            r@ == Map::<K::V, V::V>::empty(),
    {
        SortedMap::new()
    }
}

/// A set of keys, held in strictly ascending order.
#[derive(Debug, PartialEq, Eq)]
pub struct SortedSet<K: Key> {
    members: SortedMap<K, ()>,
}

impl<K: Key> DeepView for SortedSet<K> {
    type V = Set<K::V>;

    closed spec fn deep_view(&self) -> Set<K::V> {
        self.members@.dom()
    }
}

impl<K: Key> View for SortedSet<K> {
    type V = Set<K::V>;

    open spec fn view(&self) -> Set<K::V> {
        self.deep_view()
    }
}

impl<K: Key> SortedSet<K> {
    /// The members in the order in which they are held.
    pub closed spec fn items(self) -> Seq<K::V> {
        self.members.keys()
    }

    /// The empty set.
    pub fn new() -> (r: Self)
        ensures
            r@ == Set::<K::V>::empty(),
    {
        let r = SortedSet { members: SortedMap::new() };
        assert(r@ =~= Set::<K::V>::empty());
        r
    }

    /// How many members the set has.
    pub fn len(&self) -> (n: usize)
        ensures
            n == self.items().len(),
            n == self@.len(),
            self@.finite(),
            lists::<K>(self.items(), self@),
            self.items() == listing::<K>(self@),
    {
        self.members.len()
    }

    /// Whether the set has no member.
    pub fn is_empty(&self) -> (b: bool)
        ensures
            b <==> self@ =~= Set::empty(),
    {
        self.members.is_empty()
    }

    /// The member at position `i` of the ascending order.
    pub fn at(&self, i: usize) -> (k: &K)
        requires
            i < self.items().len(),
        ensures
            k.deep_view() == self.items()[i as int],
    {
        self.members.key_at(i)
    }

    /// Whether `key` is a member.
    pub fn contains(&self, key: &K) -> (b: bool)
        ensures
            b == self@.contains(key.deep_view()),
    {
        self.members.contains_key(key)
    }

    /// Makes `key` a member.
    pub fn insert(&mut self, key: K)
        ensures
            final(self)@ == old(self)@.insert(key.deep_view()),
    {
        let ghost k = key.deep_view();
        self.members.insert(key, ());
        assert(self@ =~= old(self)@.insert(k));
    }

    /// Takes `key` out of the set and tells whether it was a member.
    pub fn remove(&mut self, key: &K) -> (b: bool)
        ensures
            final(self)@ == old(self)@.remove(key.deep_view()),
            b == old(self)@.contains(key.deep_view()),
    {
        let taken: Option<()> = self.members.remove(key);
        assert(self@ =~= old(self)@.remove(key.deep_view()));
        taken.is_some()
    }
}

impl<K: Key> Value for SortedSet<K> {
    fn dup(&self) -> (r: Self) {
        SortedSet { members: self.members.dup() }
    }

    fn same(&self, other: &Self) -> (b: bool) {
        let b: bool = self.members.same(&other.members);
        proof {
            if self@ == other@ {
                assert forall|k: K::V| self.members@.contains_key(k) implies self.members@[k]
                    == other.members@[k] by {
                    assert(self.members@[k] == ());
                    assert(other.members@[k] == ());
                }
                assert(self.members@ =~= other.members@);
            }
        }
        b
    }
}

impl<K: Key> Clone for SortedSet<K> {
    fn clone(&self) -> (r: Self)
        ensures
            r@ == self@,
    {
        self.dup()
    }
}

impl<K: Key> Default for SortedSet<K> {
    fn default() -> (r: Self)
        ensures
            r@ == Set::<K::V>::empty(),
    {
        SortedSet::new()
    }
}

/// The distinct members of `items`, in ascending order.
pub fn sorted_unique<K: Key>(items: &Vec<K>) -> (r: Vec<K>)
    ensures
        r.deep_view() == listing::<K>(items.deep_view().to_set()),
        lists::<K>(r.deep_view(), items.deep_view().to_set()),
{
    let ghost all = items.deep_view();
    let mut set: SortedSet<K> = SortedSet::new();
    let mut i: usize = 0;
    assert(all.take(0).to_set() =~= Set::empty());
    while i < items.len()
        invariant
            i <= items@.len(),
            all == items.deep_view(),
            set@ == all.take(i as int).to_set(),
        decreases items@.len() - i,
    {
        set.insert(items[i].dup());
        proof {
            let t = all.take(i as int);
            let t1 = all.take(i + 1);
            assert(t1 =~= t.push(all[i as int]));
            assert forall|x: K::V| t1.to_set().contains(x) <==> t.to_set().contains(x) || x
                == all[i as int] by {
                if t.contains(x) {
                    let j = choose|j: int| 0 <= j < t.len() && t[j] == x;
                    assert(t1[j] == x);
                }
                assert(t1[i as int] == all[i as int]);
            }
            assert(set@ =~= t1.to_set());
        }
        i = i + 1;
    }
    assert(all.take(i as int) =~= all);
    set_to_vec(&set)
}

/// The members of `set` in ascending order.
pub fn set_to_vec<K: Key>(set: &SortedSet<K>) -> (r: Vec<K>)
    ensures
        r.deep_view() == listing::<K>(set@),
        lists::<K>(r.deep_view(), set@),
{
    let n: usize = set.len();
    let mut out: Vec<K> = Vec::new();
    let mut i: usize = 0;
    while i < n
        invariant
            i <= n,
            n == set.items().len(),
            out@.len() == i,
            forall|j: int| 0 <= j < i ==> #[trigger] out@[j].deep_view() == set.items()[j],
        decreases n - i,
    {
        out.push(set.at(i).dup());
        i = i + 1;
    }
    assert(out.deep_view() =~= set.items());
    out
}

} // verus!

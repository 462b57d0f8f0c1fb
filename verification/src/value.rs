//! Values with a mathematical model, and keys with a total order.
use vstd::prelude::*;
use vstd::utf8::encode_utf8;

verus! {

/// How one key stands to another in ascending order.
#[derive(Clone, Copy, Debug, PartialEq, Eq, Structural)]
pub enum Rank {
    Before,
    Same,
    After,
}

/// A value that can be duplicated and compared; both speak of its deep view, the
/// mathematical value that every contract of this crate is stated over.
pub trait Value: DeepView + Sized {
    /// A second value with the same deep view.
    fn dup(&self) -> (r: Self)
        ensures
            r.deep_view() == self.deep_view(),
    ;

    /// Whether the two values have the same deep view.
    fn same(&self, other: &Self) -> (b: bool)
        ensures
            b == (self.deep_view() == other.deep_view()),
    ;
}

/// A value whose deep views are totally ordered.
pub trait Key: Value {
    /// The strict order.
    spec fn before(a: Self::V, b: Self::V) -> bool;

    proof fn before_irreflexive(a: Self::V)
        ensures
            !Self::before(a, a),
    ;

    proof fn before_transitive(a: Self::V, b: Self::V, c: Self::V)
        requires
            Self::before(a, b),
            Self::before(b, c),
        ensures
            Self::before(a, c),
    ;

    proof fn before_total(a: Self::V, b: Self::V)
        ensures
            a == b || Self::before(a, b) || Self::before(b, a),
    ;

    /// Where `self` stands to `other`.
    fn rank(&self, other: &Self) -> (r: Rank)
        ensures
            r == Rank::Before <==> Self::before(self.deep_view(), other.deep_view()),
            r == Rank::Same <==> self.deep_view() == other.deep_view(),
            r == Rank::After <==> Self::before(other.deep_view(), self.deep_view()),
    ;
}

impl Value for u64 {
    fn dup(&self) -> (r: Self) {
        *self
    }

    fn same(&self, other: &Self) -> (b: bool) {
        *self == *other
    }
}

impl Key for u64 {
    open spec fn before(a: u64, b: u64) -> bool {
        a < b
    }

    proof fn before_irreflexive(a: u64) {
    }

    proof fn before_transitive(a: u64, b: u64, c: u64) {
    }

    proof fn before_total(a: u64, b: u64) {
    }

    fn rank(&self, other: &Self) -> (r: Rank) {
        let a: u64 = *self;
        let b: u64 = *other;
        assert(Self::before(a, b) == (a < b) && Self::before(b, a) == (b < a));
        if a < b {
            Rank::Before
        } else if a == b {
            Rank::Same
        } else {
            Rank::After
        }
    }
}

impl Value for u8 {
    fn dup(&self) -> (r: Self) {
        *self
    }

    fn same(&self, other: &Self) -> (b: bool) {
        *self == *other
    }
}

impl Value for () {
    fn dup(&self) -> (r: Self) {
    }

    fn same(&self, other: &Self) -> (b: bool) {
        true
    }
}

/// Whether `a` comes before `b` in the lexicographic order of byte strings.
pub open spec fn bytes_lt(a: Seq<u8>, b: Seq<u8>) -> bool
    decreases a.len(),
{
    if b.len() == 0 {
        false
    } else if a.len() == 0 {
        true
    } else if a[0] != b[0] {
        a[0] < b[0]
    } else {
        bytes_lt(a.drop_first(), b.drop_first())
    }
}

pub proof fn bytes_lt_irreflexive(a: Seq<u8>)
    ensures
        !bytes_lt(a, a),
    decreases a.len(),
{
    if a.len() > 0 {
        bytes_lt_irreflexive(a.drop_first());
    }
}

pub proof fn bytes_lt_transitive(a: Seq<u8>, b: Seq<u8>, c: Seq<u8>)
    requires
        bytes_lt(a, b),
        bytes_lt(b, c),
    ensures
        bytes_lt(a, c),
    decreases a.len(),
{
    if a.len() > 0 && a[0] == b[0] && b[0] == c[0] {
        bytes_lt_transitive(a.drop_first(), b.drop_first(), c.drop_first());
    }
}

pub proof fn bytes_lt_total(a: Seq<u8>, b: Seq<u8>)
    ensures
        a == b || bytes_lt(a, b) || bytes_lt(b, a),
    decreases a.len(),
{
    if a.len() == 0 || b.len() == 0 {
        if a.len() == b.len() {
            assert(a =~= b);
        }
    } else if a[0] == b[0] {
        bytes_lt_total(a.drop_first(), b.drop_first());
        if a.drop_first() == b.drop_first() {
            assert(a =~= seq![a[0]] + a.drop_first());
            assert(b =~= seq![b[0]] + b.drop_first());
        }
    }
}

/// After a common prefix, the order is that of the rest.
proof fn bytes_lt_skip_common(a: Seq<u8>, b: Seq<u8>, n: int)
    requires
        0 <= n <= a.len(),
        n <= b.len(),
        a.take(n) == b.take(n),
    ensures
        bytes_lt(a, b) == bytes_lt(a.skip(n), b.skip(n)),
    decreases n,
{
    if n == 0 {
        assert(a.skip(0) =~= a);
        assert(b.skip(0) =~= b);
    } else {
        assert(a.take(n)[0] == a[0] && b.take(n)[0] == b[0]);
        let a1 = a.drop_first();
        let b1 = b.drop_first();
        assert(a1.take(n - 1) =~= a.take(n).drop_first());
        assert(b1.take(n - 1) =~= b.take(n).drop_first());
        bytes_lt_skip_common(a1, b1, n - 1);
        assert(a1.skip(n - 1) =~= a.skip(n));
        assert(b1.skip(n - 1) =~= b.skip(n));
    }
}

/// Where the byte string `a` stands to `b`.
pub fn rank_bytes(a: &[u8], b: &[u8]) -> (r: Rank)
    ensures
        r == Rank::Before <==> bytes_lt(a@, b@),
        r == Rank::Same <==> a@ == b@,
        r == Rank::After <==> bytes_lt(b@, a@),
{
    let mut i: usize = 0;
    while i < a.len() && i < b.len()
        invariant
            i <= a@.len(),
            i <= b@.len(),
            a@.take(i as int) == b@.take(i as int),
        decreases a@.len() - i,
    {
        if a[i] != b[i] {
            proof {
                bytes_lt_skip_common(a@, b@, i as int);
                bytes_lt_skip_common(b@, a@, i as int);
                assert(a@[i as int] != b@[i as int]);
            }
            if a[i] < b[i] {
                return Rank::Before;
            } else {
                return Rank::After;
            }
        }
        proof {
            assert(a@.take(i + 1) =~= a@.take(i as int).push(a@[i as int]));
            assert(b@.take(i + 1) =~= b@.take(i as int).push(b@[i as int]));
        }
        i = i + 1;
    }
    proof {
        bytes_lt_skip_common(a@, b@, i as int);
        bytes_lt_skip_common(b@, a@, i as int);
        if a@.len() == b@.len() {
            assert(a@.take(i as int) =~= a@);
            assert(b@.take(i as int) =~= b@);
        }
    }
    if i < a.len() {
        Rank::After
    } else if i < b.len() {
        Rank::Before
    } else {
        Rank::Same
    }
}

impl Value for String {
    fn dup(&self) -> (r: Self) {
        self.clone()
    }

    fn same(&self, other: &Self) -> (b: bool) {
        *self == *other
    }
}

/// Strings stand in the order of their UTF-8 bytes.
impl Key for String {
    open spec fn before(a: Seq<char>, b: Seq<char>) -> bool {
        bytes_lt(encode_utf8(a), encode_utf8(b))
    }

    proof fn before_irreflexive(a: Seq<char>) {
        bytes_lt_irreflexive(encode_utf8(a));
    }

    proof fn before_transitive(a: Seq<char>, b: Seq<char>, c: Seq<char>) {
        bytes_lt_transitive(encode_utf8(a), encode_utf8(b), encode_utf8(c));
    }

    proof fn before_total(a: Seq<char>, b: Seq<char>) {
        bytes_lt_total(encode_utf8(a), encode_utf8(b));
        vstd::utf8::encode_utf8_decode_utf8(a);
        vstd::utf8::encode_utf8_decode_utf8(b);
    }

    fn rank(&self, other: &Self) -> (r: Rank) {
        proof {
            vstd::utf8::encode_utf8_decode_utf8(self@);
            vstd::utf8::encode_utf8_decode_utf8(other@);
        }
        rank_bytes(self.as_str().as_bytes(), other.as_str().as_bytes())
    }
}

impl<A: Value, B: Value> Value for (A, B) {
    fn dup(&self) -> (r: Self) {
        (self.0.dup(), self.1.dup())
    }

    fn same(&self, other: &Self) -> (b: bool) {
        self.0.same(&other.0) && self.1.same(&other.1)
    }
}

/// Pairs stand in lexicographic order.
impl<A: Key, B: Key> Key for (A, B) {
    open spec fn before(a: (A::V, B::V), b: (A::V, B::V)) -> bool {
        A::before(a.0, b.0) || (a.0 == b.0 && B::before(a.1, b.1))
    }

    proof fn before_irreflexive(a: (A::V, B::V)) {
        A::before_irreflexive(a.0);
        B::before_irreflexive(a.1);
    }

    proof fn before_transitive(a: (A::V, B::V), b: (A::V, B::V), c: (A::V, B::V)) {
        if A::before(a.0, b.0) && A::before(b.0, c.0) {
            A::before_transitive(a.0, b.0, c.0);
        }
        if B::before(a.1, b.1) && B::before(b.1, c.1) {
            B::before_transitive(a.1, b.1, c.1);
        }
    }

    proof fn before_total(a: (A::V, B::V), b: (A::V, B::V)) {
        A::before_total(a.0, b.0);
        B::before_total(a.1, b.1);
    }

    fn rank(&self, other: &Self) -> (r: Rank) {
        proof {
            let a = self.deep_view();
            let b = other.deep_view();
            A::before_irreflexive(a.0);
            if A::before(a.0, b.0) && A::before(b.0, a.0) {
                A::before_transitive(a.0, b.0, a.0);
            }
        }
        match self.0.rank(&other.0) {
            Rank::Before => Rank::Before,
            Rank::After => Rank::After,
            Rank::Same => self.1.rank(&other.1),
        }
    }
}

impl<T: Value> Value for Option<T> {
    fn dup(&self) -> (r: Self) {
        match self {
            Some(t) => Some(t.dup()),
            None => None,
        }
    }

    fn same(&self, other: &Self) -> (b: bool) {
        match (self, other) {
            (Some(a), Some(b)) => a.same(b),
            (None, None) => true,
            _ => false,
        }
    }
}

impl<T: Value> Value for Vec<T> {
    fn dup(&self) -> (r: Self) {
        let mut out: Vec<T> = Vec::new();
        let mut i: usize = 0;
        while i < self.len()
            invariant
                i <= self@.len(),
                out@.len() == i,
                forall|j: int| 0 <= j < i ==> #[trigger] out@[j].deep_view() == self@[j].deep_view(
                ),
            decreases self@.len() - i,
        {
            out.push(self[i].dup());
            i = i + 1;
        }
        assert(out.deep_view() =~= self.deep_view());
        out
    }

    fn same(&self, other: &Self) -> (b: bool) {
        if self.len() != other.len() {
            assert(self.deep_view().len() != other.deep_view().len());
            return false;
        }
        let mut i: usize = 0;
        while i < self.len()
            invariant
                i <= self@.len(),
                self@.len() == other@.len(),
                forall|j: int|
                    0 <= j < i ==> #[trigger] self@[j].deep_view() == other@[j].deep_view(),
            decreases self@.len() - i,
        {
            if !self[i].same(&other[i]) {
                assert(self.deep_view()[i as int] != other.deep_view()[i as int]);
                return false;
            }
            i = i + 1;
        }
        assert(self.deep_view() =~= other.deep_view());
        true
    }
}

} // verus!

//! Lexicographic orders: bytes, path components, paths and groups of paths
//! compare element by element, a proper prefix coming first.

use vstd::prelude::*;

verus! {

/// `a` comes before `b` lexicographically, deciding at index `k`: both agree
/// before `k`, and at `k` either `a` ends while `b` goes on, or `a`'s element
/// comes first.
pub open spec fn lex_at<A>(a: Seq<A>, b: Seq<A>, lt: spec_fn(A, A) -> bool, k: int) -> bool {
    &&& 0 <= k <= a.len()
    &&& k <= b.len()
    &&& a.take(k) == b.take(k)
    &&& ((k == a.len() && k < b.len()) || (k < a.len() && k < b.len() && lt(a[k], b[k])))
}

/// Lexicographic order derived from an order on elements.
pub open spec fn lex_lt<A>(a: Seq<A>, b: Seq<A>, lt: spec_fn(A, A) -> bool) -> bool {
    exists|k: int| lex_at(a, b, lt, k)
}

pub open spec fn lex_order<A>(lt: spec_fn(A, A) -> bool) -> spec_fn(Seq<A>, Seq<A>) -> bool {
    |a: Seq<A>, b: Seq<A>| lex_lt(a, b, lt)
}

/// `lt` is a strict total order: irreflexive, transitive and total on distinct
/// values.
pub open spec fn strict_total<A>(lt: spec_fn(A, A) -> bool) -> bool {
    &&& forall|x: A| !(#[trigger] lt(x, x))
    &&& forall|x: A, y: A, z: A| #[trigger] lt(x, y) && #[trigger] lt(y, z) ==> lt(x, z)
    &&& forall|x: A, y: A| x != y ==> #[trigger] lt(x, y) || lt(y, x)
}

/// Index of the first difference of `a` and `b` at or after `i`, or the length of
/// the shorter one if they agree up to it.
proof fn first_difference<A>(a: Seq<A>, b: Seq<A>, i: int) -> (k: int)
    requires
        0 <= i <= a.len(),
        i <= b.len(),
        a.take(i) == b.take(i),
    ensures
        i <= k <= a.len(),
        k <= b.len(),
        a.take(k) == b.take(k),
        (k < a.len() && k < b.len() && a[k] != b[k]) || k == a.len() || k == b.len(),
    decreases a.len() - i,
{
    if i == a.len() || i == b.len() {
        i
    } else if a[i] != b[i] {
        i
    } else {
        assert(a.take(i + 1) =~= a.take(i).push(a[i]));
        assert(b.take(i + 1) =~= b.take(i).push(b[i]));
        first_difference(a, b, i + 1)
    }
}

pub proof fn lemma_lex_irreflexive<A>(a: Seq<A>, lt: spec_fn(A, A) -> bool)
    requires
        forall|x: A| !(#[trigger] lt(x, x)),
    ensures
        !lex_lt(a, a, lt),
{
    if lex_lt(a, a, lt) {
        let k = choose|k: int| lex_at(a, a, lt, k);
        assert(!lt(a[k], a[k]));
    }
}

pub proof fn lemma_lex_transitive<A>(a: Seq<A>, b: Seq<A>, c: Seq<A>, lt: spec_fn(A, A) -> bool)
    requires
        strict_total(lt),
        lex_lt(a, b, lt),
        lex_lt(b, c, lt),
    ensures
        lex_lt(a, c, lt),
{
    let k1 = choose|k: int| lex_at(a, b, lt, k);
    let k2 = choose|k: int| lex_at(b, c, lt, k);
    if k1 < k2 {
        assert(a.take(k1) =~= c.take(k1)) by {
            assert(b.take(k1) =~= b.take(k2).take(k1));
            assert(c.take(k1) =~= c.take(k2).take(k1));
        }
        assert(b[k1] == b.take(k2)[k1]);
        assert(c[k1] == c.take(k2)[k1]);
        assert(lex_at(a, c, lt, k1));
    } else if k2 < k1 {
        assert(a.take(k2) =~= c.take(k2)) by {
            assert(a.take(k2) =~= a.take(k1).take(k2));
            assert(b.take(k2) =~= b.take(k1).take(k2));
        }
        assert(a[k2] == a.take(k1)[k2]);
        assert(b[k2] == b.take(k1)[k2]);
        assert(lex_at(a, c, lt, k2));
    } else {
        if k1 < a.len() {
            assert(lt(a[k1], c[k1]));
        }
        assert(lex_at(a, c, lt, k1));
    }
}

pub proof fn lemma_lex_total<A>(a: Seq<A>, b: Seq<A>, lt: spec_fn(A, A) -> bool)
    requires
        strict_total(lt),
        a != b,
    ensures
        lex_lt(a, b, lt) || lex_lt(b, a, lt),
{
    assert(a.take(0) =~= b.take(0));
    let k = first_difference(a, b, 0);
    if k < a.len() && k < b.len() && a[k] != b[k] {
        if lt(a[k], b[k]) {
            assert(lex_at(a, b, lt, k));
        } else {
            assert(lt(b[k], a[k]));
            assert(lex_at(b, a, lt, k));
        }
    } else if k == a.len() && k == b.len() {
        assert(a =~= a.take(k));
        assert(b =~= b.take(k));
    } else if k == a.len() {
        assert(lex_at(a, b, lt, k));
    } else {
        assert(lex_at(b, a, lt, k));
    }
}

/// The lexicographic order of a strict total order is a strict total order.
pub proof fn lemma_lex_strict_total<A>(lt: spec_fn(A, A) -> bool)
    requires
        strict_total(lt),
    ensures
        strict_total(lex_order(lt)),
{
    let l = lex_order(lt);
    assert forall|x: Seq<A>| !(#[trigger] l(x, x)) by {
        lemma_lex_irreflexive(x, lt);
    }
    assert forall|x: Seq<A>, y: Seq<A>, z: Seq<A>| #[trigger] l(x, y) && #[trigger] l(y, z) implies l(
        x,
        z,
    ) by {
        lemma_lex_transitive(x, y, z, lt);
    }
    assert forall|x: Seq<A>, y: Seq<A>| x != y implies #[trigger] l(x, y) || l(y, x) by {
        lemma_lex_total(x, y, lt);
    }
}

/// Bytes by value.
pub open spec fn byte_order() -> spec_fn(u8, u8) -> bool {
    |x: u8, y: u8| x < y
}

/// Path components, each its kind rank followed by its bytes, by their bytes.
pub open spec fn component_order() -> spec_fn(Seq<u8>, Seq<u8>) -> bool {
    lex_order(byte_order())
}

/// Paths by their components.
pub open spec fn path_order() -> spec_fn(Seq<Seq<u8>>, Seq<Seq<u8>>) -> bool {
    lex_order(component_order())
}

/// Groups of paths by their paths.
pub open spec fn group_order() -> spec_fn(Seq<Seq<Seq<u8>>>, Seq<Seq<Seq<u8>>>) -> bool {
    lex_order(path_order())
}

pub proof fn lemma_orders_strict_total()
    ensures
        strict_total(byte_order()),
        strict_total(component_order()),
        strict_total(path_order()),
        strict_total(group_order()),
{
    lemma_lex_strict_total(byte_order());
    lemma_lex_strict_total(component_order());
    lemma_lex_strict_total(path_order());
}

} // verus!

verus! {

/// Nondecreasing under `lt`.
pub open spec fn nondecreasing(s: Seq<Seq<Seq<u8>>>, lt: spec_fn(Seq<Seq<u8>>, Seq<Seq<u8>>) -> bool) -> bool {
    forall|i: int, j: int| 0 <= i < j < s.len() ==> !lt(#[trigger] s[j], #[trigger] s[i])
}

/// Strictly increasing under `lt`.
pub open spec fn strictly_sorted<A>(s: Seq<A>, lt: spec_fn(A, A) -> bool) -> bool {
    forall|i: int, j: int| 0 <= i < j < s.len() ==> lt(#[trigger] s[i], #[trigger] s[j])
}

/// Two nondecreasing sequences holding the same elements are equal.
pub proof fn lemma_sorted_unique(
    s1: Seq<Seq<Seq<u8>>>,
    s2: Seq<Seq<Seq<u8>>>,
    lt: spec_fn(Seq<Seq<u8>>, Seq<Seq<u8>>) -> bool,
)
    requires
        strict_total(lt),
        nondecreasing(s1, lt),
        nondecreasing(s2, lt),
        s1.to_multiset() == s2.to_multiset(),
    ensures
        s1 == s2,
    decreases s1.len(),
{
    broadcast use vstd::seq_lib::group_to_multiset_ensures;

    if s1.len() == 0 {
        assert(s2.len() == s2.to_multiset().len());
        assert(s2 =~= s1);
    } else {
        assert(s1.len() == s1.to_multiset().len());
        assert(s2.len() == s2.to_multiset().len());
        let a = s1[0];
        let b = s2[0];
        if a != b {
            assert(s1.contains(a));
            assert(s2.to_multiset().count(a) > 0);
            assert(s2.contains(a));
            let j = choose|j: int| 0 <= j < s2.len() && s2[j] == a;
            assert(s2.contains(b));
            assert(s1.to_multiset().count(b) > 0);
            let i = choose|i: int| 0 <= i < s1.len() && s1[i] == b;
            if lt(a, b) {
                assert(j > 0);
                assert(!lt(s2[j], s2[0]));
            } else {
                assert(lt(b, a));
                assert(i > 0);
                assert(!lt(s1[i], s1[0]));
            }
        }
        let t1 = s1.drop_first();
        let t2 = s2.drop_first();
        assert(t1 =~= s1.remove(0));
        assert(t2 =~= s2.remove(0));
        assert(t1.to_multiset() == s1.to_multiset().remove(a));
        assert(t2.to_multiset() == s2.to_multiset().remove(b));
        assert forall|i: int, j: int| 0 <= i < j < t1.len() implies !lt(#[trigger] t1[j], #[trigger] t1[i]) by {
            assert(t1[j] == s1[j + 1] && t1[i] == s1[i + 1]);
        }
        assert forall|i: int, j: int| 0 <= i < j < t2.len() implies !lt(#[trigger] t2[j], #[trigger] t2[i]) by {
            assert(t2[j] == s2[j + 1] && t2[i] == s2[i + 1]);
        }
        lemma_sorted_unique(t1, t2, lt);
        assert(s1 =~= seq![a] + t1);
        assert(s2 =~= seq![b] + t2);
    }
}

/// Two strictly increasing sequences holding the same elements are equal.
pub proof fn lemma_strictly_sorted_unique<A>(s1: Seq<A>, s2: Seq<A>, lt: spec_fn(A, A) -> bool)
    requires
        strict_total(lt),
        strictly_sorted(s1, lt),
        strictly_sorted(s2, lt),
        s1.to_set() == s2.to_set(),
    ensures
        s1 == s2,
    decreases s1.len(),
{
    if s1.len() == 0 {
        if s2.len() > 0 {
            assert(s2.to_set().contains(s2[0]));
        }
        assert(s2 =~= s1);
    } else {
        assert(s1.to_set().contains(s1[0]));
        assert(s2.len() > 0);
        let a = s1[0];
        let b = s2[0];
        if a != b {
            assert(s2.to_set().contains(a));
            let j = choose|j: int| 0 <= j < s2.len() && s2[j] == a;
            assert(s1.to_set().contains(b));
            let i = choose|i: int| 0 <= i < s1.len() && s1[i] == b;
            if lt(a, b) {
                assert(j > 0);
                assert(lt(s2[0], s2[j]));
            } else {
                assert(lt(b, a));
                assert(i > 0);
                assert(lt(s1[0], s1[i]));
            }
        }
        let t1 = s1.drop_first();
        let t2 = s2.drop_first();
        assert forall|i: int, j: int| 0 <= i < j < t1.len() implies lt(#[trigger] t1[i], #[trigger] t1[j]) by {
            assert(t1[j] == s1[j + 1] && t1[i] == s1[i + 1]);
        }
        assert forall|i: int, j: int| 0 <= i < j < t2.len() implies lt(#[trigger] t2[i], #[trigger] t2[j]) by {
            assert(t2[j] == s2[j + 1] && t2[i] == s2[i + 1]);
        }
        assert forall|x: A| t1.to_set().contains(x) <==> t2.to_set().contains(x) by {
            if t1.to_set().contains(x) {
                let i = choose|i: int| 0 <= i < t1.len() && t1[i] == x;
                assert(s1[i + 1] == x);
                assert(lt(s1[0], s1[i + 1]));
                assert(x != a);
                assert(s2.to_set().contains(x));
                let j = choose|j: int| 0 <= j < s2.len() && s2[j] == x;
                assert(j != 0);
                assert(t2[j - 1] == x);
            }
            if t2.to_set().contains(x) {
                let j = choose|j: int| 0 <= j < t2.len() && t2[j] == x;
                assert(s2[j + 1] == x);
                assert(lt(s2[0], s2[j + 1]));
                assert(x != b);
                assert(s1.to_set().contains(x));
                let i = choose|i: int| 0 <= i < s1.len() && s1[i] == x;
                assert(i != 0);
                assert(t1[i - 1] == x);
            }
        }
        assert(t1.to_set() =~= t2.to_set());
        lemma_strictly_sorted_unique(t1, t2, lt);
        assert(s1 =~= seq![a] + t1);
        assert(s2 =~= seq![b] + t2);
    }
}

} // verus!

verus! {

/// The outcome of a three-way comparison.
#[derive(Clone, Copy, Debug, PartialEq, Eq, Structural)]
pub enum Order {
    Less,
    Equal,
    Greater,
}

/// `r` is the outcome of comparing `a` with `b` under `lt`.
pub open spec fn compares<A>(r: Order, a: A, b: A, lt: spec_fn(A, A) -> bool) -> bool {
    match r {
        Order::Less => lt(a, b),
        Order::Equal => a == b,
        Order::Greater => lt(b, a),
    }
}

/// Compares two path components.
pub fn compare_components(a: &Vec<u8>, b: &Vec<u8>) -> (r: Order)
    ensures
        compares(r, a@, b@, component_order()),
{
    let mut i: usize = 0;
    while i < a.len() && i < b.len()
        invariant
            i <= a.len(),
            i <= b.len(),
            a@.take(i as int) == b@.take(i as int),
        decreases a.len() - i,
    {
        if a[i] < b[i] {
            assert(lex_at(a@, b@, byte_order(), i as int));
            return Order::Less;
        }
        if b[i] < a[i] {
            assert(lex_at(b@, a@, byte_order(), i as int));
            return Order::Greater;
        }
        assert(a@.take(i + 1) =~= a@.take(i as int).push(a@[i as int]));
        assert(b@.take(i + 1) =~= b@.take(i as int).push(b@[i as int]));
        i = i + 1;
    }
    if a.len() == b.len() {
        assert(a@ =~= a@.take(i as int));
        assert(b@ =~= b@.take(i as int));
        Order::Equal
    } else if i == a.len() {
        assert(lex_at(a@, b@, byte_order(), i as int));
        Order::Less
    } else {
        assert(lex_at(b@, a@, byte_order(), i as int));
        Order::Greater
    }
}

pub proof fn lemma_bytes_deep_view(v: Vec<u8>)
    ensures
        v.deep_view() == v@,
{
    assert(v.deep_view() =~= v@);
}

/// Compares two paths given as their components.
pub fn compare_paths(a: &Vec<Vec<u8>>, b: &Vec<Vec<u8>>) -> (r: Order)
    ensures
        compares(r, a.deep_view(), b.deep_view(), path_order()),
{
    let ghost da = a.deep_view();
    let ghost db = b.deep_view();
    let mut i: usize = 0;
    while i < a.len() && i < b.len()
        invariant
            i <= a.len(),
            i <= b.len(),
            da == a.deep_view(),
            db == b.deep_view(),
            da.take(i as int) == db.take(i as int),
        decreases a.len() - i,
    {
        proof {
            lemma_bytes_deep_view(a@[i as int]);
            lemma_bytes_deep_view(b@[i as int]);
        }
        let c = compare_components(&a[i], &b[i]);
        match c {
            Order::Less => {
                assert(lex_at(da, db, component_order(), i as int));
                return Order::Less;
            },
            Order::Greater => {
                assert(lex_at(db, da, component_order(), i as int));
                return Order::Greater;
            },
            Order::Equal => {},
        }
        assert(da.take(i + 1) =~= da.take(i as int).push(da[i as int]));
        assert(db.take(i + 1) =~= db.take(i as int).push(db[i as int]));
        i = i + 1;
    }
    if a.len() == b.len() {
        assert(da =~= da.take(i as int));
        assert(db =~= db.take(i as int));
        Order::Equal
    } else if i == a.len() {
        assert(lex_at(da, db, component_order(), i as int));
        Order::Less
    } else {
        assert(lex_at(db, da, component_order(), i as int));
        Order::Greater
    }
}

/// Compares two groups given as their paths.
pub fn compare_groups(a: &Vec<Vec<Vec<u8>>>, b: &Vec<Vec<Vec<u8>>>) -> (r: Order)
    ensures
        compares(r, a.deep_view(), b.deep_view(), group_order()),
{
    let ghost da = a.deep_view();
    let ghost db = b.deep_view();
    let mut i: usize = 0;
    while i < a.len() && i < b.len()
        invariant
            i <= a.len(),
            i <= b.len(),
            da == a.deep_view(),
            db == b.deep_view(),
            da.take(i as int) == db.take(i as int),
        decreases a.len() - i,
    {
        let c = compare_paths(&a[i], &b[i]);
        match c {
            Order::Less => {
                assert(lex_at(da, db, path_order(), i as int));
                return Order::Less;
            },
            Order::Greater => {
                assert(lex_at(db, da, path_order(), i as int));
                return Order::Greater;
            },
            Order::Equal => {},
        }
        assert(da.take(i + 1) =~= da.take(i as int).push(da[i as int]));
        assert(db.take(i + 1) =~= db.take(i as int).push(db[i as int]));
        i = i + 1;
    }
    if a.len() == b.len() {
        assert(da =~= da.take(i as int));
        assert(db =~= db.take(i as int));
        Order::Equal
    } else if i == a.len() {
        assert(lex_at(da, db, path_order(), i as int));
        Order::Less
    } else {
        assert(lex_at(db, da, path_order(), i as int));
        Order::Greater
    }
}

} // verus!

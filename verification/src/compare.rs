//! Comparison of the duplicate groups found by two engines.
//!
//! A path is given as its components (see `PathKey`); the caller resolves each
//! path to its canonical form before building the keys. Groups are compared as
//! sets of paths: each group is normalized by sorting its paths, and the
//! normalized groups of each side form a set.

use vstd::prelude::*;
use vstd::multiset::Multiset;
use crate::order::{
    lemma_bytes_deep_view, Order, compare_groups, compare_paths, group_order, lemma_orders_strict_total, lemma_sorted_unique,
    lemma_strictly_sorted_unique, nondecreasing, path_order, strict_total, strictly_sorted,
};

verus! {

broadcast use vstd::seq_lib::group_to_multiset_ensures;

/// A path as the list of its components. Each component is its kind's rank (0 a
/// prefix, 1 the root, 2 the current directory, 3 the parent directory, 4 a
/// name) followed by the component's bytes; paths compare as `std::path::Path`
/// does, component by component.
pub type PathKey = Vec<Vec<u8>>;

/// The kind of a path component, in the order paths sort them.
#[derive(Clone, Copy, Debug, PartialEq, Eq, Structural)]
pub enum ComponentKind {
    Prefix,
    RootDir,
    CurDir,
    ParentDir,
    Normal,
}

/// The rank of a component kind in a path key.
pub open spec fn kind_rank(kind: ComponentKind) -> u8 {
    match kind {
        ComponentKind::Prefix => 0,
        ComponentKind::RootDir => 1,
        ComponentKind::CurDir => 2,
        ComponentKind::ParentDir => 3,
        ComponentKind::Normal => 4,
    }
}

/// The key of one component: its kind's rank, then its bytes.
pub open spec fn component_key(kind: ComponentKind, bytes: Seq<u8>) -> Seq<u8> {
    seq![kind_rank(kind)] + bytes
}

fn rank_of(kind: ComponentKind) -> (r: u8)
    ensures
        r == kind_rank(kind),
{
    match kind {
        ComponentKind::Prefix => 0,
        ComponentKind::RootDir => 1,
        ComponentKind::CurDir => 2,
        ComponentKind::ParentDir => 3,
        ComponentKind::Normal => 4,
    }
}

/// The key of a path given by its components, each as its kind and bytes.
pub fn path_key(components: &Vec<(ComponentKind, Vec<u8>)>) -> (r: PathKey)
    ensures
        r.deep_view() == Seq::new(
            components@.len(),
            |i: int| component_key(components@[i].0, components@[i].1@),
        ),
{
    let mut key: PathKey = Vec::new();
    let mut i: usize = 0;
    while i < components.len()
        invariant
            i <= components@.len(),
            key.deep_view() == Seq::new(i as nat, |m: int| component_key(components@[m].0, components@[m].1@)),
        decreases components.len() - i,
    {
        let bytes = &components[i].1;
        let mut component: Vec<u8> = Vec::new();
        component.push(rank_of(components[i].0));
        let mut j: usize = 0;
        while j < bytes.len()
            invariant
                j <= bytes@.len(),
                component@ == seq![kind_rank(components@[i as int].0)] + bytes@.take(j as int),
            decreases bytes.len() - j,
        {
            component.push(bytes[j]);
            j = j + 1;
            assert(component@ =~= seq![kind_rank(components@[i as int].0)] + bytes@.take(j as int));
        }
        assert(bytes@.take(bytes@.len() as int) =~= bytes@);
        let ghost before = key.deep_view();
        proof {
            lemma_bytes_deep_view(component);
        }
        key.push(component);
        assert(key.deep_view() =~= before.push(component@)) by {
            assert forall|m: int| 0 <= m < key@.len() implies #[trigger] key.deep_view()[m] == before.push(
                component@,
            )[m] by {
                lemma_bytes_deep_view(key@[m]);
            }
        }
        i = i + 1;
        assert(key.deep_view() =~= Seq::new(i as nat, |m: int| component_key(components@[m].0, components@[m].1@)));
    }
    key
}

/// A group of duplicate files, by their paths.
pub type PathGroup = Vec<PathKey>;

/// The abstract value of a group of paths.
pub type GroupView = Seq<Seq<Seq<u8>>>;

/// `r` is the normalized form of the group `g`: the same paths, in order.
pub open spec fn is_normal_form(r: GroupView, g: GroupView) -> bool {
    &&& nondecreasing(r, path_order())
    &&& r.to_multiset() == g.to_multiset()
}

/// The normalized forms of a list of groups, as a set.
pub open spec fn normal_forms(groups: Seq<GroupView>) -> Set<GroupView> {
    Set::new(|r: GroupView| exists|i: int| 0 <= i < groups.len() && is_normal_form(r, #[trigger] groups[i]))
}

/// The groups that only one side found, each with its paths in order, the groups
/// in order.
#[derive(Debug)]
pub struct DuplicateComparison {
    pub only_left: Vec<PathGroup>,
    pub only_right: Vec<PathGroup>,
}

impl DuplicateComparison {
    /// Both sides found the same groups.
    pub fn identical(&self) -> (r: bool)
        ensures
            r == (self.only_left.len() == 0 && self.only_right.len() == 0),
    {
        self.only_left.len() == 0 && self.only_right.len() == 0
    }
}

/// The paths of `paths` in order.
pub fn sort_paths(paths: PathGroup) -> (r: PathGroup)
    ensures
        is_normal_form(r.deep_view(), paths.deep_view()),
{
    proof {
        lemma_orders_strict_total();
    }
    let ghost orig = paths.deep_view();
    let mut rest = paths;
    let mut sorted: PathGroup = Vec::new();
    assert(rest.deep_view() =~= orig);
    assert(sorted.deep_view() =~= Seq::<Seq<Seq<u8>>>::empty());
    while rest.len() > 0
        invariant
            sorted.deep_view().to_multiset().add(rest.deep_view().to_multiset()) == orig.to_multiset(),
            nondecreasing(sorted.deep_view(), path_order()),
            strict_total(path_order()),
        decreases rest.len(),
    {
        let ghost rest_before = rest.deep_view();
        let x = rest.pop().unwrap();
        assert(rest_before =~= rest.deep_view().push(x.deep_view()));
        let ghost xd = x.deep_view();
        let ghost s = sorted.deep_view();
        let mut pos: usize = 0;
        while pos < sorted.len() && compare_paths(&x, &sorted[pos]) != Order::Less
            invariant
                pos <= sorted.len(),
                s == sorted.deep_view(),
                xd == x.deep_view(),
                strict_total(path_order()),
                forall|k: int| 0 <= k < pos ==> !(path_order())(xd, #[trigger] s[k]),
            decreases sorted.len() - pos,
        {
            pos = pos + 1;
        }
        proof {
            if pos < sorted.len() {
                assert((path_order())(xd, s[pos as int]));
            }
        }
        sorted.insert(pos, x);
        proof {
            let t = sorted.deep_view();
            assert(t =~= s.insert(pos as int, xd));
            s.insert_ensures(pos as int, xd);
            vstd::seq_lib::to_multiset_insert(s, pos as int, xd);
            vstd::seq_lib::to_multiset_build(rest.deep_view(), xd);
            assert(t.to_multiset().add(rest.deep_view().to_multiset()) =~= s.to_multiset().add(
                rest_before.to_multiset(),
            ));
            let lt = path_order();
            assert forall|a: int, b: int| 0 <= a < b < t.len() implies !lt(#[trigger] t[b], #[trigger] t[a]) by {
                if b < pos {
                } else if b == pos {
                } else if a < pos {
                    if a < b - 1 {
                        assert(!lt(s[b - 1], s[a]));
                    }
                } else if a == pos {
                    let y = s[b - 1];
                    if b - 1 > pos {
                        assert(!lt(y, s[pos as int]));
                    }
                    if y != s[pos as int] {
                        assert(lt(s[pos as int], y));
                        assert(lt(xd, y));
                    }
                    if lt(y, xd) {
                        assert(lt(xd, xd));
                    }
                } else {
                    assert(!lt(s[b - 1], s[a - 1]));
                }
            }
        }
    }
    assert(rest.deep_view().len() == 0);
    assert(rest.deep_view().to_multiset().len() == 0);
    proof {
        vstd::multiset::lemma_multiset_empty_len(rest.deep_view().to_multiset());
    }
    assert(sorted.deep_view().to_multiset() =~= sorted.deep_view().to_multiset().add(
        rest.deep_view().to_multiset(),
    ));
    sorted
}

} // verus!

verus! {

/// Adds `n` to the ordered set `set`, unless it is there already.
pub fn insert_group(set: &mut Vec<PathGroup>, n: PathGroup)
    requires
        strictly_sorted(old(set).deep_view(), group_order()),
    ensures
        strictly_sorted(final(set).deep_view(), group_order()),
        final(set).deep_view().to_set() == old(set).deep_view().to_set().insert(n.deep_view()),
{
    proof {
        lemma_orders_strict_total();
    }
    let ghost nd = n.deep_view();
    let ghost s = set.deep_view();
    let ghost lt = group_order();
    let mut pos: usize = 0;
    while pos < set.len() && compare_groups(&set[pos], &n) == Order::Less
        invariant
            pos <= set.len(),
            s == set.deep_view(),
            nd == n.deep_view(),
            lt == group_order(),
            forall|q: int| 0 <= q < pos ==> lt(#[trigger] s[q], nd),
        decreases set.len() - pos,
    {
        pos = pos + 1;
    }
    if pos < set.len() && compare_groups(&set[pos], &n) == Order::Equal {
        assert(s[pos as int] == nd);
        assert(s.to_set().contains(nd));
        assert(s.to_set().insert(nd) =~= s.to_set());
        return ;
    }
    proof {
        if pos < set.len() {
            assert(lt(nd, s[pos as int]));
        }
    }
    set.insert(pos, n);
    proof {
        let t = set.deep_view();
        assert(t =~= s.insert(pos as int, nd));
        s.insert_ensures(pos as int, nd);
        assert forall|a: int, b: int| 0 <= a < b < t.len() implies lt(#[trigger] t[a], #[trigger] t[b]) by {
            if b < pos {
            } else if b == pos {
            } else if a < pos {
                assert(lt(s[a], nd));
                assert(lt(nd, s[pos as int]));
                if b - 1 > pos {
                    assert(lt(s[pos as int], s[b - 1]));
                }
            } else if a == pos {
                if b - 1 > pos {
                    assert(lt(s[pos as int], s[b - 1]));
                }
            } else {
                assert(lt(s[a - 1], s[b - 1]));
            }
        }
        assert forall|x: GroupView| t.to_set().contains(x) <==> s.to_set().insert(nd).contains(x) by {
            if t.to_set().contains(x) {
                let j = choose|j: int| 0 <= j < t.len() && t[j] == x;
                if j < pos {
                    assert(s[j] == x);
                } else if j > pos {
                    assert(s[j - 1] == x);
                }
            }
            if s.to_set().contains(x) {
                let j = choose|j: int| 0 <= j < s.len() && s[j] == x;
                if j < pos {
                    assert(t[j] == x);
                } else {
                    assert(t[j + 1] == x);
                }
            }
            if x == nd {
                assert(t[pos as int] == x);
            }
        }
        assert(t.to_set() =~= s.to_set().insert(nd));
    }
}

/// Every group in `set` is the normal form of one of `orig`, and every group of
/// `orig` from `lo` on has its normal form in `set`.
pub open spec fn covers(set: Set<GroupView>, orig: Seq<GroupView>, lo: int) -> bool {
    &&& forall|x: GroupView| #[trigger] set.contains(x) ==> exists|i: int| 0 <= i < orig.len() && is_normal_form(x, orig[i])
    &&& forall|i: int|
        #![trigger orig[i]]
        lo <= i < orig.len() ==> exists|x: GroupView| #[trigger] set.contains(x) && is_normal_form(x, orig[i])
}

proof fn lemma_covers_step(before: Set<GroupView>, n: GroupView, orig: Seq<GroupView>, k: int)
    requires
        0 <= k < orig.len(),
        covers(before, orig, k + 1),
        is_normal_form(n, orig[k]),
    ensures
        covers(before.insert(n), orig, k),
{
    let after = before.insert(n);
    assert forall|x: GroupView| #[trigger] after.contains(x) implies exists|i: int|
        0 <= i < orig.len() && is_normal_form(x, orig[i]) by {
        if x != n {
            assert(before.contains(x));
        }
    }
    assert forall|i: int| #![trigger orig[i]] k <= i < orig.len() implies exists|x: GroupView|
        #[trigger] after.contains(x) && is_normal_form(x, orig[i]) by {
        if i == k {
            assert(after.contains(n) && is_normal_form(n, orig[i]));
        } else {
            let x = choose|x: GroupView| #[trigger] before.contains(x) && is_normal_form(x, orig[i]);
            assert(after.contains(x));
        }
    }
}

proof fn lemma_covers_all(set: Set<GroupView>, orig: Seq<GroupView>)
    requires
        covers(set, orig, 0),
    ensures
        set == normal_forms(orig),
{
    lemma_orders_strict_total();
    assert forall|x: GroupView| set.contains(x) <==> normal_forms(orig).contains(x) by {
        if normal_forms(orig).contains(x) {
            let i = choose|i: int| 0 <= i < orig.len() && is_normal_form(x, #[trigger] orig[i]);
            let y = choose|y: GroupView| #[trigger] set.contains(y) && is_normal_form(y, orig[i]);
            lemma_sorted_unique(x, y, path_order());
        }
    }
    assert(set =~= normal_forms(orig));
}

/// The normalized groups: each group with its paths in order, each distinct
/// group once, the groups in order.
pub fn normalized_groups(groups: Vec<PathGroup>) -> (r: Vec<PathGroup>)
    ensures
        strictly_sorted(r.deep_view(), group_order()),
        r.deep_view().to_set() == normal_forms(groups.deep_view()),
{
    let ghost orig = groups.deep_view();
    let mut rest = groups;
    let mut set: Vec<PathGroup> = Vec::new();
    assert(rest.deep_view() =~= orig.take(rest.len() as int));
    assert(set.deep_view().to_set() =~= Set::<GroupView>::empty());
    while rest.len() > 0
        invariant
            rest.len() <= orig.len(),
            rest.deep_view() == orig.take(rest.len() as int),
            strictly_sorted(set.deep_view(), group_order()),
            covers(set.deep_view().to_set(), orig, rest.len() as int),
        decreases rest.len(),
    {
        let ghost k = rest.len() - 1;
        let ghost rest_before = rest.deep_view();
        let ghost before = set.deep_view().to_set();
        let g = rest.pop().unwrap();
        assert(g.deep_view() == rest_before[k]);
        assert(rest.deep_view() =~= orig.take(k));
        let n = sort_paths(g);
        insert_group(&mut set, n);
        proof {
            lemma_covers_step(before, n.deep_view(), orig, k);
        }
    }
    proof {
        lemma_covers_all(set.deep_view().to_set(), orig);
    }
    set
}

/// Whether `set` holds `g`.
pub fn contains_group(set: &Vec<PathGroup>, g: &PathGroup) -> (r: bool)
    ensures
        r == set.deep_view().contains(g.deep_view()),
{
    let mut i: usize = 0;
    while i < set.len()
        invariant
            i <= set.len(),
            forall|j: int| 0 <= j < i ==> set.deep_view()[j] != g.deep_view(),
        decreases set.len() - i,
    {
        if compare_groups(&set[i], g) == Order::Equal {
            assert(set.deep_view()[i as int] == g.deep_view());
            return true;
        }
        i = i + 1;
    }
    false
}

/// For each group of `a`, whether `b` lacks it.
pub fn absent_flags(a: &Vec<PathGroup>, b: &Vec<PathGroup>) -> (flags: Vec<bool>)
    ensures
        flags.len() == a.len(),
        forall|i: int| 0 <= i < a.len() ==> flags[i] == !b.deep_view().contains(#[trigger] a.deep_view()[i]),
{
    let mut flags: Vec<bool> = Vec::new();
    let mut i: usize = 0;
    while i < a.len()
        invariant
            i <= a.len(),
            flags.len() == i,
            forall|j: int| 0 <= j < i ==> flags[j] == !b.deep_view().contains(#[trigger] a.deep_view()[j]),
        decreases a.len() - i,
    {
        let present = contains_group(b, &a[i]);
        flags.push(!present);
        i = i + 1;
    }
    flags
}

/// The groups of `orig` from index `lo` on whose flag is set.
pub open spec fn flagged_from(orig: Seq<GroupView>, flags: Seq<bool>, lo: int) -> Set<GroupView> {
    Set::new(|x: GroupView| exists|i: int| lo <= i < orig.len() && flags[i] && orig[i] == x)
}

proof fn lemma_flagged_step(orig: Seq<GroupView>, flags: Seq<bool>, k: int)
    requires
        0 <= k < orig.len(),
    ensures
        flags[k] ==> flagged_from(orig, flags, k) == flagged_from(orig, flags, k + 1).insert(orig[k]),
        !flags[k] ==> flagged_from(orig, flags, k) == flagged_from(orig, flags, k + 1),
{
    if flags[k] {
        assert forall|x: GroupView| flagged_from(orig, flags, k).contains(x) <==> flagged_from(
            orig,
            flags,
            k + 1,
        ).insert(orig[k]).contains(x) by {
            if flagged_from(orig, flags, k + 1).contains(x) {
                let i = choose|i: int| k + 1 <= i < orig.len() && flags[i] && orig[i] == x;
                assert(k <= i);
            }
        }
        assert(flagged_from(orig, flags, k) =~= flagged_from(orig, flags, k + 1).insert(orig[k]));
    } else {
        assert forall|x: GroupView| flagged_from(orig, flags, k).contains(x) <==> flagged_from(
            orig,
            flags,
            k + 1,
        ).contains(x) by {
            if flagged_from(orig, flags, k).contains(x) {
                let i = choose|i: int| k <= i < orig.len() && flags[i] && orig[i] == x;
                assert(i != k);
            }
        }
        assert(flagged_from(orig, flags, k) =~= flagged_from(orig, flags, k + 1));
    }
}

/// The groups of `a` whose flag is set, in order.
pub fn keep_flagged(a: Vec<PathGroup>, flags: Vec<bool>) -> (r: Vec<PathGroup>)
    requires
        strictly_sorted(a.deep_view(), group_order()),
        flags.len() == a.len(),
    ensures
        strictly_sorted(r.deep_view(), group_order()),
        r.deep_view().to_set() == flagged_from(a.deep_view(), flags@, 0),
{
    let ghost orig = a.deep_view();
    let mut rest = a;
    let mut out: Vec<PathGroup> = Vec::new();
    assert(rest.deep_view() =~= orig.take(rest.len() as int));
    assert(out.deep_view().to_set() =~= flagged_from(orig, flags@, orig.len() as int));
    while rest.len() > 0
        invariant
            rest.len() <= orig.len(),
            flags.len() == orig.len(),
            strictly_sorted(orig, group_order()),
            rest.deep_view() == orig.take(rest.len() as int),
            strictly_sorted(out.deep_view(), group_order()),
            out.deep_view().to_set() == flagged_from(orig, flags@, rest.len() as int),
        decreases rest.len(),
    {
        let ghost k = rest.len() - 1;
        let ghost rest_before = rest.deep_view();
        let ghost o = out.deep_view();
        let g = rest.pop().unwrap();
        assert(g.deep_view() == rest_before[k]);
        assert(g.deep_view() == orig[k]);
        assert(rest.deep_view() =~= orig.take(k));
        proof {
            lemma_flagged_step(orig, flags@, k);
        }
        let keep = flags[rest.len()];
        if keep {
            out.insert(0, g);
            proof {
                let lt = group_order();
                let t = out.deep_view();
                assert(t =~= o.insert(0, orig[k]));
                o.insert_ensures(0, orig[k]);
                assert forall|p: int, q: int| 0 <= p < q < t.len() implies lt(#[trigger] t[p], #[trigger] t[q]) by {
                    if p == 0 {
                        assert(o.to_set().contains(o[q - 1]));
                        let i = choose|i: int| k + 1 <= i < orig.len() && flags[i] && orig[i] == o[q - 1];
                        assert(lt(orig[k], orig[i]));
                    } else {
                        assert(lt(o[p - 1], o[q - 1]));
                    }
                }
                assert forall|x: GroupView| t.to_set().contains(x) <==> o.to_set().insert(orig[k]).contains(x) by {
                    if t.to_set().contains(x) {
                        let j = choose|j: int| 0 <= j < t.len() && t[j] == x;
                        if j > 0 {
                            assert(o[j - 1] == x);
                        }
                    }
                    if o.to_set().contains(x) {
                        let j = choose|j: int| 0 <= j < o.len() && o[j] == x;
                        assert(t[j + 1] == x);
                    }
                    if x == orig[k] {
                        assert(t[0] == x);
                    }
                }
                assert(t.to_set() =~= o.to_set().insert(orig[k]));
            }
        }
    }
    out
}

/// Compares the groups two engines found: `only_left` holds the normalized
/// groups that only the left result has, `only_right` those that only the
/// right result has, each in order.
pub fn compare_results(left: Vec<PathGroup>, right: Vec<PathGroup>) -> (r: DuplicateComparison)
    ensures
        strictly_sorted(r.only_left.deep_view(), group_order()),
        strictly_sorted(r.only_right.deep_view(), group_order()),
        r.only_left.deep_view().to_set() == normal_forms(left.deep_view()).difference(
            normal_forms(right.deep_view()),
        ),
        r.only_right.deep_view().to_set() == normal_forms(right.deep_view()).difference(
            normal_forms(left.deep_view()),
        ),
{
    let ghost ld = left.deep_view();
    let ghost rd = right.deep_view();
    let l = normalized_groups(left);
    let r = normalized_groups(right);
    let left_flags = absent_flags(&l, &r);
    let right_flags = absent_flags(&r, &l);
    let ghost lv = l.deep_view();
    let ghost rv = r.deep_view();
    let only_left = keep_flagged(l, left_flags);
    let only_right = keep_flagged(r, right_flags);
    proof {
        assert forall|x: GroupView| only_left.deep_view().to_set().contains(x) <==> normal_forms(ld).difference(
            normal_forms(rd),
        ).contains(x) by {
            if only_left.deep_view().contains(x) {
                assert(flagged_from(lv, left_flags@, 0).contains(x));
                let i = choose|i: int| 0 <= i < lv.len() && left_flags[i] && lv[i] == x;
                assert(lv.to_set().contains(x));
                assert(!rv.contains(x));
                assert(!rv.to_set().contains(x));
            }
            if normal_forms(ld).difference(normal_forms(rd)).contains(x) {
                assert(lv.to_set().contains(x));
                let i = choose|i: int| 0 <= i < lv.len() && lv[i] == x;
                assert(!rv.to_set().contains(x));
                assert(left_flags[i]);
                assert(flagged_from(lv, left_flags@, 0).contains(x));
            }
        }
        assert forall|x: GroupView| only_right.deep_view().to_set().contains(x) <==> normal_forms(rd).difference(
            normal_forms(ld),
        ).contains(x) by {
            if only_right.deep_view().contains(x) {
                assert(flagged_from(rv, right_flags@, 0).contains(x));
                let i = choose|i: int| 0 <= i < rv.len() && right_flags[i] && rv[i] == x;
                assert(rv.to_set().contains(x));
                assert(!lv.contains(x));
                assert(!lv.to_set().contains(x));
            }
            if normal_forms(rd).difference(normal_forms(ld)).contains(x) {
                assert(rv.to_set().contains(x));
                let i = choose|i: int| 0 <= i < rv.len() && rv[i] == x;
                assert(!lv.to_set().contains(x));
                assert(right_flags[i]);
                assert(flagged_from(rv, right_flags@, 0).contains(x));
            }
        }
        assert(only_left.deep_view().to_set() =~= normal_forms(ld).difference(normal_forms(rd)));
        assert(only_right.deep_view().to_set() =~= normal_forms(rd).difference(normal_forms(ld)));
    }
    DuplicateComparison { only_left, only_right }
}

} // verus!

verus! {

/// What `compare_results(left, right)` returns, over the abstract values.
pub open spec fn comparison_of(
    left: Seq<GroupView>,
    right: Seq<GroupView>,
    only_left: Seq<GroupView>,
    only_right: Seq<GroupView>,
) -> bool {
    &&& strictly_sorted(only_left, group_order())
    &&& strictly_sorted(only_right, group_order())
    &&& only_left.to_set() == normal_forms(left).difference(normal_forms(right))
    &&& only_right.to_set() == normal_forms(right).difference(normal_forms(left))
}

/// Two results compare as identical exactly when they found the same groups,
/// each group taken as the set of its paths.
pub proof fn lemma_identical_iff_same_groups(
    left: Seq<GroupView>,
    right: Seq<GroupView>,
    only_left: Seq<GroupView>,
    only_right: Seq<GroupView>,
)
    requires
        comparison_of(left, right, only_left, only_right),
    ensures
        (only_left.len() == 0 && only_right.len() == 0) <==> normal_forms(left) == normal_forms(right),
{
    let l = normal_forms(left);
    let r = normal_forms(right);
    if only_left.len() == 0 && only_right.len() == 0 {
        assert forall|x: GroupView| l.contains(x) <==> r.contains(x) by {
            if l.contains(x) && !r.contains(x) {
                assert(l.difference(r).contains(x));
                assert(only_left.to_set().contains(x));
            }
            if r.contains(x) && !l.contains(x) {
                assert(r.difference(l).contains(x));
                assert(only_right.to_set().contains(x));
            }
        }
        assert(l =~= r);
    }
    if l == r {
        if only_left.len() > 0 {
            assert(only_left.to_set().contains(only_left[0]));
        }
        if only_right.len() > 0 {
            assert(only_right.to_set().contains(only_right[0]));
        }
    }
}

/// Two lists hold the same groups, each group up to the order of its paths,
/// the groups in any order.
pub open spec fn same_groups_up_to_order(a: Seq<GroupView>, b: Seq<GroupView>) -> bool {
    &&& forall|i: int|
        #![trigger a[i]]
        0 <= i < a.len() ==> exists|j: int| 0 <= j < b.len() && a[i].to_multiset() == b[j].to_multiset()
    &&& forall|j: int|
        #![trigger b[j]]
        0 <= j < b.len() ==> exists|i: int| 0 <= i < a.len() && a[i].to_multiset() == b[j].to_multiset()
}

proof fn lemma_same_normal_forms(a: Seq<GroupView>, b: Seq<GroupView>)
    requires
        same_groups_up_to_order(a, b),
    ensures
        normal_forms(a) == normal_forms(b),
{
    assert forall|r: GroupView| normal_forms(a).contains(r) <==> normal_forms(b).contains(r) by {
        if normal_forms(a).contains(r) {
            let i = choose|i: int| 0 <= i < a.len() && is_normal_form(r, #[trigger] a[i]);
            let j = choose|j: int| 0 <= j < b.len() && a[i].to_multiset() == b[j].to_multiset();
            assert(is_normal_form(r, b[j]));
        }
        if normal_forms(b).contains(r) {
            let j = choose|j: int| 0 <= j < b.len() && is_normal_form(r, #[trigger] b[j]);
            let i = choose|i: int| 0 <= i < a.len() && a[i].to_multiset() == b[j].to_multiset();
            assert(is_normal_form(r, a[i]));
        }
    }
    assert(normal_forms(a) =~= normal_forms(b));
}

/// A result compared with itself is identical.
pub proof fn lemma_self_comparison_identical(
    groups: Seq<GroupView>,
    only_left: Seq<GroupView>,
    only_right: Seq<GroupView>,
)
    requires
        comparison_of(groups, groups, only_left, only_right),
    ensures
        only_left.len() == 0,
        only_right.len() == 0,
{
    lemma_identical_iff_same_groups(groups, groups, only_left, only_right);
}

/// The comparison does not depend on the order of the groups, nor on the
/// order of the paths inside a group, on either side.
pub proof fn lemma_comparison_ignores_order(
    left: Seq<GroupView>,
    right: Seq<GroupView>,
    left2: Seq<GroupView>,
    right2: Seq<GroupView>,
    only_left: Seq<GroupView>,
    only_right: Seq<GroupView>,
    only_left2: Seq<GroupView>,
    only_right2: Seq<GroupView>,
)
    requires
        same_groups_up_to_order(left, left2),
        same_groups_up_to_order(right, right2),
        comparison_of(left, right, only_left, only_right),
        comparison_of(left2, right2, only_left2, only_right2),
    ensures
        only_left2 == only_left,
        only_right2 == only_right,
{
    lemma_same_normal_forms(left, left2);
    lemma_same_normal_forms(right, right2);
    lemma_orders_strict_total();
    lemma_strictly_sorted_unique(only_left2, only_left, group_order());
    lemma_strictly_sorted_unique(only_right2, only_right, group_order());
}

/// Comparing the other way round swaps the two sides of the comparison.
pub proof fn lemma_comparison_symmetric(
    left: Seq<GroupView>,
    right: Seq<GroupView>,
    only_left: Seq<GroupView>,
    only_right: Seq<GroupView>,
    swapped_left: Seq<GroupView>,
    swapped_right: Seq<GroupView>,
)
    requires
        comparison_of(left, right, only_left, only_right),
        comparison_of(right, left, swapped_left, swapped_right),
    ensures
        swapped_left == only_right,
        swapped_right == only_left,
{
    lemma_orders_strict_total();
    lemma_strictly_sorted_unique(swapped_left, only_right, group_order());
    lemma_strictly_sorted_unique(swapped_right, only_left, group_order());
}

} // verus!

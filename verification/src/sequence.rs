//! The sequencer: imposes a deterministic, dependency-aware total order on
//! the merged records. The ordering rule is a pairwise comparator (a
//! dependent sorts after its dependency, otherwise larger items first,
//! ties keep input order); it is applied by a stable insertion sort and is
//! not a topological sort, so multi-hop dependency chains are only ordered
//! correctly where the comparator is transitive on the input.
use vstd::prelude::*;
use crate::merge::{Mod, ModView};

verus! {

broadcast use {vstd::seq_lib::group_to_multiset_ensures, vstd::multiset::group_multiset_axioms};

/// Whether `a` declares `b`'s id among its dependencies.
pub open spec fn deps_on(a: ModView, b: ModView) -> bool {
    a.dependencies.contains(b.id)
}

/// The strict comparator of the sequencer: `a` sorts strictly before `b`
/// when `b` depends on `a`, or when neither depends on the other and `a`
/// is strictly larger.
pub open spec fn sorts_before(a: ModView, b: ModView) -> bool {
    &&& !deps_on(a, b)
    &&& (deps_on(b, a) || a.file_size > b.file_size)
}

/// The reflexive closure used to state sortedness: `a` may stand no later
/// than `b` exactly when `b` need not come strictly first.
pub open spec fn may_precede(a: ModView, b: ModView) -> bool {
    !sorts_before(b, a)
}

/// Two records the comparator considers equal: no dependency relation in
/// either direction, and the same size.
pub open spec fn tied(a: ModView, b: ModView) -> bool {
    !deps_on(a, b) && !deps_on(b, a) && a.file_size == b.file_size
}

pub proof fn lemma_sorts_before_asymmetric(a: ModView, b: ModView)
    ensures
        !(sorts_before(a, b) && sorts_before(b, a)),
{
}

pub proof fn lemma_tied_not_sorts_before(a: ModView, b: ModView)
    requires
        tied(a, b),
    ensures
        !sorts_before(a, b),
        !sorts_before(b, a),
{
}

/// Executable form of the ordering rule.
pub fn mod_sorts_before(a: &Mod, b: &Mod) -> (r: bool)
    ensures
        r == sorts_before(a@, b@),
{
    if a.has_dependency(b.id) {
        false
    } else if b.has_dependency(a.id) {
        true
    } else {
        a.file_size > b.file_size
    }
}

/// Where a stable insertion places `x` into the already-sequenced `s`:
/// directly after the last element that need not come strictly after `x`.
pub open spec fn insert_pos(s: Seq<(ModView, int)>, x: ModView) -> int
    decreases s.len(),
{
    if s.len() == 0 {
        0
    } else if sorts_before(x, s.last().0) {
        insert_pos(s.drop_last(), x)
    } else {
        s.len() as int
    }
}

/// One insertion step of the stable sort.
pub open spec fn place(s: Seq<(ModView, int)>, x: (ModView, int)) -> Seq<(ModView, int)> {
    s.insert(insert_pos(s, x.0), x)
}

/// Stable insertion sort over records paired with their input positions.
pub open spec fn sort_indexed(s: Seq<(ModView, int)>) -> Seq<(ModView, int)>
    decreases s.len(),
{
    if s.len() == 0 {
        Seq::empty()
    } else {
        place(sort_indexed(s.drop_last()), s.last())
    }
}

/// Pairs each record with its position in the input.
pub open spec fn with_indices(s: Seq<ModView>) -> Seq<(ModView, int)> {
    Seq::new(s.len(), |i: int| (s[i], i))
}

pub open spec fn strip_indices(s: Seq<(ModView, int)>) -> Seq<ModView> {
    s.map_values(|p: (ModView, int)| p.0)
}

/// The deterministic result of the sequencer.
pub open spec fn sequenced(s: Seq<ModView>) -> Seq<ModView> {
    strip_indices(sort_indexed(with_indices(s)))
}

pub proof fn lemma_insert_pos_props(s: Seq<(ModView, int)>, x: ModView)
    ensures
        0 <= insert_pos(s, x) <= s.len(),
        forall|k: int| insert_pos(s, x) <= k < s.len() ==> sorts_before(x, #[trigger] s[k].0),
        insert_pos(s, x) > 0 ==> !sorts_before(x, s[insert_pos(s, x) - 1].0),
    decreases s.len(),
{
    if s.len() == 0 {
    } else if sorts_before(x, s.last().0) {
        lemma_insert_pos_props(s.drop_last(), x);
        let p = insert_pos(s, x);
        assert(p == insert_pos(s.drop_last(), x));
        assert forall|k: int| p <= k < s.len() implies sorts_before(x, #[trigger] s[k].0) by {
            if k < s.len() - 1 {
                assert(s.drop_last()[k] == s[k]);
            }
        }
        if p > 0 {
            assert(s.drop_last()[p - 1] == s[p - 1]);
        }
    }
}

/// `insert_pos` is the unique index with "everything from here on must
/// come after `x`, and the element just before need not".
pub proof fn lemma_insert_pos_unique(s: Seq<(ModView, int)>, x: ModView, j: int)
    requires
        0 <= j <= s.len(),
        forall|k: int| j <= k < s.len() ==> sorts_before(x, #[trigger] s[k].0),
        j > 0 ==> !sorts_before(x, s[j - 1].0),
    ensures
        insert_pos(s, x) == j,
    decreases s.len(),
{
    if s.len() == 0 {
    } else if j == s.len() {
        assert(!sorts_before(x, s.last().0));
    } else {
        assert(sorts_before(x, s.last().0));
        lemma_insert_pos_unique(s.drop_last(), x, j);
    }
}

pub proof fn lemma_map_values_insert<A, B>(s: Seq<A>, i: int, a: A, f: spec_fn(A) -> B)
    requires
        0 <= i <= s.len(),
    ensures
        s.insert(i, a).map_values(f) =~= s.map_values(f).insert(i, f(a)),
{
    s.insert_ensures(i, a);
    s.map_values(f).insert_ensures(i, f(a));
}

/// Sequences the merged records: a stable insertion sort under the
/// dependency/size comparator.
pub fn sequence_mods(mods: Vec<Mod>) -> (r: Vec<Mod>)
    ensures
        r@.map_values(|m: Mod| m@) == sequenced(mods@.map_values(|m: Mod| m@)),
{
    let ghost orig: Seq<ModView> = mods@.map_values(|m: Mod| m@);
    let mut input = mods;
    let mut out: Vec<Mod> = Vec::new();
    let ghost mut gs: Seq<(ModView, int)> = Seq::empty();
    let ghost mut k: int = 0;
    proof {
        assert(with_indices(orig).take(0) =~= Seq::<(ModView, int)>::empty());
        assert(out@.map_values(|m: Mod| m@) =~= strip_indices(gs));
        assert(input@.map_values(|m: Mod| m@) =~= orig.skip(0));
    }
    while input.len() > 0
        invariant
            0 <= k <= orig.len(),
            k + input.len() == orig.len(),
            input@.map_values(|m: Mod| m@) == orig.skip(k),
            gs == sort_indexed(with_indices(orig).take(k)),
            out@.map_values(|m: Mod| m@) == strip_indices(gs),
            out@.len() == gs.len(),
        decreases input.len(),
    {
        let ghost pre_input = input@;
        let x = input.remove(0);
        proof {
            assert(pre_input.map_values(|m: Mod| m@)[0] == orig.skip(k)[0]);
            assert(x@ == orig[k]);
            assert(input@.map_values(|m: Mod| m@) =~= orig.skip(k + 1)) by {
                assert forall|n: int| 0 <= n < input@.len() implies
                    input@.map_values(|m: Mod| m@)[n] == #[trigger] orig.skip(k + 1)[n] by {
                    assert(input@[n] == pre_input[n + 1]);
                    assert(pre_input.map_values(|m: Mod| m@)[n + 1] == orig.skip(k)[n + 1]);
                }
            }
        }
        let mut j: usize = out.len();
        while j > 0 && mod_sorts_before(&x, &out[j - 1])
            invariant
                0 <= j <= out.len(),
                forall|n: int| j <= n < out@.len() ==> sorts_before(x@, #[trigger] out@[n]@),
                out@.map_values(|m: Mod| m@) == strip_indices(gs),
                out@.len() == gs.len(),
            decreases j,
        {
            j = j - 1;
        }
        proof {
            assert forall|n: int| j <= n < gs.len() implies sorts_before(x@, #[trigger] gs[n].0) by {
                assert(out@.map_values(|m: Mod| m@)[n] == gs[n].0);
                assert(out@[n]@ == gs[n].0);
            }
            if j > 0 {
                assert(out@.map_values(|m: Mod| m@)[j - 1] == gs[j - 1].0);
                assert(!sorts_before(x@, gs[j - 1].0));
            }
            lemma_insert_pos_unique(gs, x@, j as int);
        }
        let ghost pre_out = out@;
        out.insert(j, x);
        proof {
            let p = (x@, k);
            lemma_map_values_insert(pre_out, j as int, x, |m: Mod| m@);
            lemma_map_values_insert(gs, j as int, p, |q: (ModView, int)| q.0);
            assert(out@.map_values(|m: Mod| m@) =~= strip_indices(place(gs, p)));
            gs = place(gs, p);
            k = k + 1;
            let w = with_indices(orig);
            assert(w.take(k).drop_last() =~= w.take(k - 1));
            assert(w.take(k).last() == p);
            assert(w.take(k).len() == k);
            assert(gs == sort_indexed(w.take(k)));
        }
    }
    proof {
        assert(with_indices(orig).take(k) =~= with_indices(orig));
        assert(out@.map_values(|m: Mod| m@) == sequenced(orig));
    }
    out
}

pub proof fn lemma_place_multiset(s: Seq<(ModView, int)>, x: (ModView, int))
    ensures
        place(s, x).to_multiset() == s.to_multiset().insert(x),
{
    lemma_insert_pos_props(s, x.0);
    vstd::seq_lib::to_multiset_insert(s, insert_pos(s, x.0), x);
}

pub proof fn lemma_sort_indexed_multiset(t: Seq<(ModView, int)>)
    ensures
        sort_indexed(t).to_multiset() == t.to_multiset(),
    decreases t.len(),
{
    if t.len() == 0 {
        assert(sort_indexed(t) =~= t);
    } else {
        lemma_sort_indexed_multiset(t.drop_last());
        lemma_place_multiset(sort_indexed(t.drop_last()), t.last());
        assert(t.drop_last().push(t.last()) =~= t);
        assert(t.drop_last().push(t.last()).to_multiset() == t.drop_last().to_multiset().insert(
            t.last(),
        ));
    }
}

pub proof fn lemma_map_values_remove<A, B>(s: Seq<A>, i: int, f: spec_fn(A) -> B)
    requires
        0 <= i < s.len(),
    ensures
        s.remove(i).map_values(f) =~= s.map_values(f).remove(i),
{
    s.remove_ensures(i);
    s.map_values(f).remove_ensures(i);
}

/// Sequences with equal multisets keep equal multisets under any mapping.
pub proof fn lemma_map_values_multiset<A, B>(s: Seq<A>, t: Seq<A>, f: spec_fn(A) -> B)
    requires
        s.to_multiset() == t.to_multiset(),
    ensures
        s.map_values(f).to_multiset() == t.map_values(f).to_multiset(),
    decreases s.len(),
{
    if s.len() == 0 {
        assert(s.to_multiset().len() == s.len());
        assert(t.to_multiset().len() == t.len());
        assert(t.len() == 0);
        assert(s.map_values(f) =~= t.map_values(f));
    } else {
        let a = s.last();
        assert(s.contains(a));
        assert(s.to_multiset().count(a) > 0);
        assert(t.contains(a));
        let i = choose|i: int| 0 <= i < t.len() && t[i] == a;
        let s1 = s.drop_last();
        let t1 = t.remove(i);
        assert(s1.push(a) =~= s);
        assert(s.to_multiset() == s1.to_multiset().insert(a));
        assert(t1.to_multiset() == t.to_multiset().remove(a));
        assert(s1.to_multiset() =~= t1.to_multiset());
        lemma_map_values_multiset(s1, t1, f);
        assert(s.map_values(f) =~= s1.map_values(f).push(f(a)));
        assert(s.map_values(f).to_multiset() == s1.map_values(f).to_multiset().insert(f(a)));
        lemma_map_values_remove(t, i, f);
        assert(t.map_values(f)[i] == f(a));
        vstd::seq_lib::to_multiset_remove(t.map_values(f), i);
        assert(t1.map_values(f).to_multiset() == t.map_values(f).to_multiset().remove(f(a)));
        assert(t.map_values(f).to_multiset().count(f(a)) > 0) by {
            assert(t.map_values(f).contains(t.map_values(f)[i]));
        }
        assert(s.map_values(f).to_multiset() =~= t.map_values(f).to_multiset());
    }
}

/// Law: sequencing is a permutation — the multiset of records, and in
/// particular the multiset of their ids, is exactly that of the input.
pub proof fn lemma_sequenced_permutation(s: Seq<ModView>)
    ensures
        sequenced(s).to_multiset() == s.to_multiset(),
        sequenced(s).map_values(|m: ModView| m.id).to_multiset() == s.map_values(
            |m: ModView| m.id,
        ).to_multiset(),
        sequenced(s).len() == s.len(),
{
    let w = with_indices(s);
    lemma_sort_indexed_multiset(w);
    lemma_map_values_multiset::<(ModView, int), ModView>(
        sort_indexed(w),
        w,
        |p: (ModView, int)| p.0,
    );
    assert(strip_indices(w) =~= s);
    assert(sequenced(s).to_multiset() == s.to_multiset());
    lemma_map_values_multiset::<ModView, u64>(sequenced(s), s, |m: ModView| m.id);
    assert(sequenced(s).to_multiset().len() == s.to_multiset().len());
}

/// Every adjacent-or-distant pair of the sequence respects the comparator.
pub open spec fn pairwise_sorted(t: Seq<(ModView, int)>) -> bool {
    forall|i: int, j: int|
        0 <= i < j < t.len() ==> may_precede(#[trigger] t[i].0, #[trigger] t[j].0)
}

/// The comparator's reflexive closure is transitive on the records of `s`.
/// The comparator cannot express multi-hop dependency chains, so this does
/// not hold of every input; where it fails the sort still permutes but the
/// global order has no pairwise meaning.
pub open spec fn ordering_consistent(s: Seq<ModView>) -> bool {
    forall|a: ModView, b: ModView, c: ModView|
        #![trigger may_precede(a, b), may_precede(b, c)]
        s.contains(a) && s.contains(b) && s.contains(c) && may_precede(a, b) && may_precede(b, c)
            ==> may_precede(a, c)
}

/// No two records of `s` depend on each other (no two-cycles).
pub open spec fn no_mutual_dependencies(s: Seq<ModView>) -> bool {
    forall|a: ModView, b: ModView|
        #![trigger deps_on(a, b), deps_on(b, a)]
        s.contains(a) && s.contains(b) ==> !(deps_on(a, b) && deps_on(b, a))
}

/// Where no record depends on any other, the comparator is a plain size
/// order and the consistency hypotheses of the ordering laws hold.
pub proof fn lemma_no_dependencies_consistent(s: Seq<ModView>)
    requires
        forall|a: ModView, b: ModView|
            s.contains(a) && s.contains(b) ==> !#[trigger] deps_on(a, b),
    ensures
        ordering_consistent(s),
        no_mutual_dependencies(s),
{
    assert forall|a: ModView, b: ModView, c: ModView|
        #![trigger may_precede(a, b), may_precede(b, c)]
        s.contains(a) && s.contains(b) && s.contains(c) && may_precede(a, b) && may_precede(
            b,
            c,
        ) implies may_precede(a, c) by {
        assert(!deps_on(a, c) && !deps_on(c, a));
        assert(a.file_size >= b.file_size >= c.file_size);
    }
}

pub proof fn lemma_sort_indexed_sorted(t: Seq<(ModView, int)>, s: Seq<ModView>)
    requires
        ordering_consistent(s),
        forall|n: int| 0 <= n < t.len() ==> s.contains(#[trigger] t[n].0),
    ensures
        pairwise_sorted(sort_indexed(t)),
        sort_indexed(t).len() == t.len(),
        forall|n: int| 0 <= n < t.len() ==> s.contains(#[trigger] sort_indexed(t)[n].0),
    decreases t.len(),
{
    if t.len() == 0 {
    } else {
        let t1 = t.drop_last();
        assert(forall|n: int| 0 <= n < t1.len() ==> s.contains(#[trigger] t1[n].0));
        lemma_sort_indexed_sorted(t1, s);
        let u = sort_indexed(t1);
        let x = t.last();
        let p = insert_pos(u, x.0);
        lemma_insert_pos_props(u, x.0);
        u.insert_ensures(p, x);
        let r = u.insert(p, x);
        assert(sort_indexed(t) == r);
        assert(s.contains(x.0));
        assert forall|i: int, j: int| 0 <= i < j < r.len() implies may_precede(
            #[trigger] r[i].0,
            #[trigger] r[j].0,
        ) by {
            if i < p && j < p {
                assert(r[i] == u[i] && r[j] == u[j]);
            } else if i < p && j == p {
                assert(r[i] == u[i] && r[j] == x);
                assert(may_precede(u[p - 1].0, x.0));
                if i < p - 1 {
                    assert(may_precede(u[i].0, u[p - 1].0));
                    assert(s.contains(u[i].0) && s.contains(u[p - 1].0));
                }
            } else if i < p && j > p {
                assert(r[i] == u[i] && r[j] == u[j - 1]);
                assert(i < j - 1 || i == j - 1);
                if i == j - 1 {
                    assert(i < p && j - 1 >= p);
                    assert(false);
                }
            } else if i == p {
                assert(r[i] == x && r[j] == u[j - 1]);
                assert(sorts_before(x.0, u[j - 1].0));
                lemma_sorts_before_asymmetric(x.0, u[j - 1].0);
            } else {
                assert(r[i] == u[i - 1] && r[j] == u[j - 1]);
            }
        }
        assert forall|n: int| 0 <= n < r.len() implies s.contains(#[trigger] r[n].0) by {
            if n < p {
                assert(r[n] == u[n]);
            } else if n == p {
                assert(r[n] == x);
            } else {
                assert(r[n] == u[n - 1]);
            }
        }
    }
}

/// Law: under a consistent ordering with no mutual dependencies, every
/// record's dependencies stand strictly before it in the sequenced output —
/// no record depends on a later one.
pub proof fn lemma_dependencies_respected(s: Seq<ModView>)
    requires
        ordering_consistent(s),
        no_mutual_dependencies(s),
    ensures
        forall|i: int, j: int|
            0 <= i < j < sequenced(s).len() ==> !deps_on(
                #[trigger] sequenced(s)[i],
                #[trigger] sequenced(s)[j],
            ),
{
    let w = with_indices(s);
    assert(forall|n: int| 0 <= n < w.len() ==> s.contains(#[trigger] w[n].0));
    lemma_sort_indexed_sorted(w, s);
    let t = sort_indexed(w);
    assert forall|i: int, j: int| 0 <= i < j < sequenced(s).len() implies !deps_on(
        #[trigger] sequenced(s)[i],
        #[trigger] sequenced(s)[j],
    ) by {
        let a = t[i].0;
        let b = t[j].0;
        assert(sequenced(s)[i] == a && sequenced(s)[j] == b);
        assert(may_precede(a, b));
        if deps_on(a, b) {
            assert(deps_on(b, a));
            assert(s.contains(a) && s.contains(b));
            assert(false);
        }
    }
}

/// Law: under a consistent ordering, records with no dependency relation
/// stand in size order, the larger first.
pub proof fn lemma_size_order_respected(s: Seq<ModView>)
    requires
        ordering_consistent(s),
    ensures
        forall|i: int, j: int|
            0 <= i < j < sequenced(s).len() && !deps_on(
                #[trigger] sequenced(s)[i],
                #[trigger] sequenced(s)[j],
            ) && !deps_on(sequenced(s)[j], sequenced(s)[i]) ==> sequenced(s)[i].file_size
                >= sequenced(s)[j].file_size,
{
    let w = with_indices(s);
    assert(forall|n: int| 0 <= n < w.len() ==> s.contains(#[trigger] w[n].0));
    lemma_sort_indexed_sorted(w, s);
    let t = sort_indexed(w);
    assert forall|i: int, j: int|
        0 <= i < j < sequenced(s).len() && !deps_on(
            #[trigger] sequenced(s)[i],
            #[trigger] sequenced(s)[j],
        ) && !deps_on(sequenced(s)[j], sequenced(s)[i]) implies sequenced(s)[i].file_size
        >= sequenced(s)[j].file_size by {
        assert(sequenced(s)[i] == t[i].0 && sequenced(s)[j] == t[j].0);
        assert(may_precede(t[i].0, t[j].0));
    }
}

pub proof fn lemma_sort_prefix_stable(s: Seq<ModView>, k: int)
    requires
        0 <= k <= s.len(),
    ensures
        ({
            let t = sort_indexed(with_indices(s).take(k));
            &&& t.len() == k
            &&& forall|a: int| 0 <= a < k ==> 0 <= #[trigger] t[a].1 < k && t[a].0 == s[t[a].1]
            &&& forall|a: int, b: int| 0 <= a < b < k ==> #[trigger] t[a].1 != #[trigger] t[b].1
            &&& forall|a: int, b: int|
                0 <= a < b < k && tied(t[a].0, t[b].0) ==> #[trigger] t[a].1 < #[trigger] t[b].1
        }),
    decreases k,
{
    if k == 0 {
    } else {
        lemma_sort_prefix_stable(s, k - 1);
        let w = with_indices(s);
        assert(w.take(k).drop_last() =~= w.take(k - 1));
        let u = sort_indexed(w.take(k - 1));
        let x = w.take(k).last();
        assert(x == (s[k - 1], k - 1));
        let p = insert_pos(u, x.0);
        lemma_insert_pos_props(u, x.0);
        u.insert_ensures(p, x);
        let t = u.insert(p, x);
        assert(sort_indexed(w.take(k)) == t);
        assert forall|a: int| 0 <= a < k implies 0 <= #[trigger] t[a].1 < k && t[a].0 == s[t[a].1]
            by {
            if a < p {
                assert(t[a] == u[a]);
            } else if a == p {
                assert(t[a] == x);
            } else {
                assert(t[a] == u[a - 1]);
            }
        }
        assert forall|a: int, b: int| 0 <= a < b < k implies #[trigger] t[a].1 != #[trigger] t[b].1
            by {
            if a < p && b < p {
                assert(t[a] == u[a] && t[b] == u[b]);
            } else if a < p && b == p {
                assert(t[a] == u[a] && t[b] == x);
                assert(u[a].1 < k - 1);
            } else if a < p && b > p {
                assert(t[a] == u[a] && t[b] == u[b - 1]);
            } else if a == p {
                assert(t[a] == x && t[b] == u[b - 1]);
                assert(u[b - 1].1 < k - 1);
            } else {
                assert(t[a] == u[a - 1] && t[b] == u[b - 1]);
            }
        }
        assert forall|a: int, b: int| 0 <= a < b < k && tied(t[a].0, t[b].0) implies
            #[trigger] t[a].1 < #[trigger] t[b].1 by {
            if a < p && b < p {
                assert(t[a] == u[a] && t[b] == u[b]);
            } else if a < p && b == p {
                assert(t[a] == u[a] && t[b] == x);
                assert(u[a].1 < k - 1);
            } else if a < p && b > p {
                assert(t[a] == u[a] && t[b] == u[b - 1]);
            } else if a == p {
                assert(t[a] == x && t[b] == u[b - 1]);
                assert(sorts_before(x.0, u[b - 1].0));
                lemma_tied_not_sorts_before(x.0, u[b - 1].0);
                assert(false);
            } else {
                assert(t[a] == u[a - 1] && t[b] == u[b - 1]);
            }
        }
    }
}

/// Law: the sequencer is stable — every output record is an input record
/// (witnessed by its input position), positions are used once, and records
/// the comparator ties keep their input order.
pub proof fn lemma_sequenced_stable(s: Seq<ModView>)
    ensures
        ({
            let t = sort_indexed(with_indices(s));
            &&& t.len() == s.len()
            &&& sequenced(s).len() == s.len()
            &&& forall|a: int|
                0 <= a < s.len() ==> 0 <= #[trigger] t[a].1 < s.len() && t[a].0 == s[t[a].1]
                    && sequenced(s)[a] == s[t[a].1]
            &&& forall|a: int, b: int|
                0 <= a < b < s.len() ==> #[trigger] t[a].1 != #[trigger] t[b].1
            &&& forall|a: int, b: int|
                0 <= a < b < s.len() && tied(t[a].0, t[b].0) ==> #[trigger] t[a].1
                    < #[trigger] t[b].1
        }),
{
    lemma_sort_prefix_stable(s, s.len() as int);
    assert(with_indices(s).take(s.len() as int) =~= with_indices(s));
}

} // verus!

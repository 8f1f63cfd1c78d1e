//! What holds of every load order.

use vstd::prelude::*;

use crate::registry::{resolve, PluginManager};
use crate::resolver::{has_edge, is_active, is_load_order, is_next, is_ready};
use crate::text::{key_lt, lemma_key_lt_irreflexive, lemma_key_lt_total};

verus! {

proof fn lemma_sorted_unique(s1: Seq<Seq<char>>, s2: Seq<Seq<char>>)
    requires
        forall|i: int, j: int| 0 <= i < j < s1.len() ==> key_lt(#[trigger] s1[i], #[trigger] s1[j]),
        forall|i: int, j: int| 0 <= i < j < s2.len() ==> key_lt(#[trigger] s2[i], #[trigger] s2[j]),
        forall|k: Seq<char>| #[trigger] s1.contains(k) <==> s2.contains(k),
    ensures
        s1 == s2,
    decreases s1.len(),
{
    if s1.len() == 0 {
        if s2.len() > 0 {
            assert(s2.contains(s2[0]));
            assert(s1.contains(s2[0]));
        }
        assert(s1 =~= s2);
        return;
    }
    assert(s1.contains(s1[0]));
    assert(s2.len() > 0);
    assert(s2.contains(s2[0]));
    assert(s1.contains(s2[0]));
    assert(s2.contains(s1[0]));
    let j = choose|j: int| 0 <= j < s2.len() && s2[j] == s1[0];
    let i = choose|i: int| 0 <= i < s1.len() && s1[i] == s2[0];
    lemma_key_lt_irreflexive(s1[0]);
    lemma_key_lt_irreflexive(s2[0]);
    lemma_key_lt_total(s1[0], s2[0]);
    if j > 0 {
        assert(key_lt(s2[0], s2[j]));
        if i > 0 {
            assert(key_lt(s1[0], s1[i]));
        }
    }
    assert(j == 0);
    let t1 = s1.drop_first();
    let t2 = s2.drop_first();
    assert forall|k: Seq<char>| #[trigger] t1.contains(k) <==> t2.contains(k) by {
        if t1.contains(k) {
            let a = choose|a: int| 0 <= a < t1.len() && t1[a] == k;
            assert(s1[a + 1] == k);
            assert(key_lt(s1[0], s1[a + 1]));
            assert(s1.contains(k));
            assert(s2.contains(k));
            let b = choose|b: int| 0 <= b < s2.len() && s2[b] == k;
            if b == 0 {
                lemma_key_lt_irreflexive(k);
            }
            assert(t2[b - 1] == k);
        }
        if t2.contains(k) {
            let a = choose|a: int| 0 <= a < t2.len() && t2[a] == k;
            assert(s2[a + 1] == k);
            assert(key_lt(s2[0], s2[a + 1]));
            assert(s1.contains(k));
            let b = choose|b: int| 0 <= b < s1.len() && s1[b] == k;
            if b == 0 {
                lemma_key_lt_irreflexive(k);
            }
            assert(t1[b - 1] == k);
        }
    }
    assert forall|a: int, b: int| 0 <= a < b < t1.len() implies key_lt(#[trigger] t1[a], #[trigger] t1[b]) by {
        assert(key_lt(s1[a + 1], s1[b + 1]));
    }
    assert forall|a: int, b: int| 0 <= a < b < t2.len() implies key_lt(#[trigger] t2[a], #[trigger] t2[b]) by {
        assert(key_lt(s2[a + 1], s2[b + 1]));
    }
    lemma_sorted_unique(t1, t2);
    assert(s1 =~= seq![s1[0]] + t1);
    assert(s2 =~= seq![s2[0]] + t2);
}

proof fn lemma_prefix_agree(
    g: Map<Seq<char>, crate::registry::Plugin>,
    o1: Seq<Seq<char>>,
    c1: int,
    o2: Seq<Seq<char>>,
    c2: int,
    t: int,
)
    requires
        is_load_order(g, o1, c1),
        is_load_order(g, o2, c2),
        0 <= t <= c1,
        t <= c2,
    ensures
        o1.take(t) == o2.take(t),
    decreases t,
{
    if t == 0 {
        assert(o1.take(0) =~= o2.take(0));
    } else {
        lemma_prefix_agree(g, o1, c1, o2, c2, t - 1);
        let d = o1.take(t - 1);
        assert(is_next(g, o1.take(t - 1), o1[t - 1]));
        assert(is_next(g, o2.take(t - 1), o2[t - 1]));
        assert(is_ready(g, d, o2[t - 1]));
        assert(is_ready(g, d, o1[t - 1]));
        lemma_key_lt_total(o1[t - 1], o2[t - 1]);
        assert(o1.take(t) =~= d.push(o1[t - 1]));
        assert(o2.take(t) =~= o2.take(t - 1).push(o2[t - 1]));
    }
}

/// The load order is a function of the registry's contents: two orders that
/// both meet the definition for the same registry are the same, cyclic
/// remainder included.
pub proof fn law_load_order_unique(
    g: Map<Seq<char>, crate::registry::Plugin>,
    o1: Seq<Seq<char>>,
    c1: int,
    o2: Seq<Seq<char>>,
    c2: int,
)
    requires
        is_load_order(g, o1, c1),
        is_load_order(g, o2, c2),
    ensures
        o1 == o2,
        c1 == c2,
{
    if c1 < c2 {
        lemma_prefix_agree(g, o1, c1, o2, c2, c1);
        assert(is_next(g, o2.take(c1), o2[c1]));
        assert(!is_ready(g, o1.take(c1), o2[c1]));
    }
    if c2 < c1 {
        lemma_prefix_agree(g, o1, c1, o2, c2, c2);
        assert(is_next(g, o1.take(c2), o1[c2]));
        assert(!is_ready(g, o2.take(c2), o1[c2]));
    }
    assert(c1 == c2);
    let c = c1;
    lemma_prefix_agree(g, o1, c1, o2, c2, c);
    let p = o1.take(c);
    let s1 = o1.skip(c);
    let s2 = o2.skip(c);
    assert forall|k: Seq<char>| #[trigger] s1.contains(k) <==> s2.contains(k) by {
        if s1.contains(k) {
            let a = choose|a: int| 0 <= a < s1.len() && s1[a] == k;
            assert(o1[a + c] == k);
            assert(o1.contains(k));
            assert(is_active(g, k));
            assert(o2.contains(k));
            let b = choose|b: int| 0 <= b < o2.len() && o2[b] == k;
            if b < c {
                assert(p[b] == k);
                assert(o1[b] == k);
            }
            assert(s2[b - c] == k);
        }
        if s2.contains(k) {
            let a = choose|a: int| 0 <= a < s2.len() && s2[a] == k;
            assert(o2[a + c] == k);
            assert(o2.contains(k));
            assert(is_active(g, k));
            assert(o1.contains(k));
            let b = choose|b: int| 0 <= b < o1.len() && o1[b] == k;
            if b < c {
                assert(o2.take(c)[b] == k);
                assert(o2[b] == k);
            }
            assert(s1[b - c] == k);
        }
    }
    assert forall|a: int, b: int| 0 <= a < b < s1.len() implies key_lt(#[trigger] s1[a], #[trigger] s1[b]) by {
        assert(key_lt(o1[a + c], o1[b + c]));
    }
    assert forall|a: int, b: int| 0 <= a < b < s2.len() implies key_lt(#[trigger] s2[a], #[trigger] s2[b]) by {
        assert(key_lt(o2[a + c], o2[b + c]));
    }
    lemma_sorted_unique(s1, s2);
    assert(o1 =~= p + s1);
    assert(o2 =~= o2.take(c) + s2);
}

/// Registration order does not matter: two registries that hold the same
/// plugins under the same keys, in whatever order they were added, have the
/// same load order.
pub proof fn law_registration_order_irrelevant(
    m1: &PluginManager,
    m2: &PluginManager,
    o1: Seq<Seq<char>>,
    c1: int,
    o2: Seq<Seq<char>>,
    c2: int,
)
    requires
        m1.wf(),
        m2.wf(),
        forall|i: int|
            0 <= i < m1.keys.len() ==> exists|j: int|
                0 <= j < m2.keys.len() && (#[trigger] m1.keys@[i])@ == (#[trigger] m2.keys@[j])@
                    && m1.plugins@[i] == m2.plugins@[j],
        forall|j: int|
            0 <= j < m2.keys.len() ==> exists|i: int|
                0 <= i < m1.keys.len() && (#[trigger] m1.keys@[i])@ == (#[trigger] m2.keys@[j])@
                    && m1.plugins@[i] == m2.plugins@[j],
        is_load_order(m1.graph(), o1, c1),
        is_load_order(m2.graph(), o2, c2),
    ensures
        m1.graph() == m2.graph(),
        o1 == o2,
        c1 == c2,
{
    let g1 = m1.graph();
    let g2 = m2.graph();
    assert forall|k: Seq<char>| g1.contains_key(k) implies g2.contains_key(k) && g1[k] == g2[k] by {
        m1.lemma_graph_key(k);
        let i = m1.index_of(k);
        let j = choose|j: int|
            0 <= j < m2.keys.len() && (#[trigger] m1.keys@[i])@ == (#[trigger] m2.keys@[j])@
                && m1.plugins@[i] == m2.plugins@[j];
        m2.lemma_graph_at(j);
    }
    assert forall|k: Seq<char>| g2.contains_key(k) implies g1.contains_key(k) by {
        m2.lemma_graph_key(k);
        let j = m2.index_of(k);
        let i = choose|i: int|
            0 <= i < m1.keys.len() && (#[trigger] m1.keys@[i])@ == (#[trigger] m2.keys@[j])@
                && m1.plugins@[i] == m2.plugins@[j];
        m1.lemma_graph_at(i);
    }
    assert(g1 =~= g2);
    law_load_order_unique(g1, o1, c1, o2, c2);
}

/// For every edge `a -> b`, `a` comes before `b` in the load order unless
/// both stand in the cyclic remainder.
pub proof fn law_topological_validity(
    g: Map<Seq<char>, crate::registry::Plugin>,
    o: Seq<Seq<char>>,
    cut: int,
    i: int,
    j: int,
)
    requires
        is_load_order(g, o, cut),
        0 <= i < o.len(),
        0 <= j < o.len(),
        has_edge(g, o[i], o[j]),
        !(i >= cut && j >= cut),
    ensures
        i < j,
{
    if j < cut {
        assert(is_next(g, o.take(j), o[j]));
        assert(o.take(j).contains(o[i]));
        let t = choose|t: int| 0 <= t < o.take(j).len() && o.take(j)[t] == o[i];
        assert(o[t] == o[i]);
    }
}

/// The cyclic remainder follows the prefix in strictly increasing key order,
/// and each of its keys waits on another key of the remainder.
pub proof fn law_cycle_remainder(g: Map<Seq<char>, crate::registry::Plugin>, o: Seq<Seq<char>>, cut: int, i: int)
    requires
        is_load_order(g, o, cut),
        cut <= i < o.len(),
    ensures
        forall|j: int| i < j < o.len() ==> key_lt(o[i], #[trigger] o[j]),
        exists|j: int| cut <= j < o.len() && j != i && #[trigger] has_edge(g, o[j], o[i]),
{
    let p = o.take(cut);
    assert(o.contains(o[i]));
    assert(is_active(g, o[i]));
    assert(!p.contains(o[i])) by {
        if p.contains(o[i]) {
            let t = choose|t: int| 0 <= t < p.len() && p[t] == o[i];
            assert(o[t] == o[i]);
        }
    }
    assert(!is_ready(g, p, o[i]));
    let a = choose|a: Seq<char>| #[trigger] has_edge(g, a, o[i]) && !p.contains(a);
    assert(is_active(g, a));
    assert(o.contains(a));
    let j = choose|j: int| 0 <= j < o.len() && o[j] == a;
    if j < cut {
        assert(p[j] == a);
    }
}

/// A plugin is left out of the load order exactly when one of its own hard
/// dependencies does not resolve. A left-out plugin still resolves under its
/// key, so a plugin that depends on it is not left out on that account.
pub proof fn law_missing_dependency_excludes_only_dependent(
    g: Map<Seq<char>, crate::registry::Plugin>,
    o: Seq<Seq<char>>,
    cut: int,
    a: Seq<char>,
    e: Seq<char>,
)
    requires
        is_load_order(g, o, cut),
        g.contains_key(a),
        g.contains_key(e),
        !is_active(g, e),
    ensures
        !o.contains(e),
        resolve(g, e) == Some(e),
        o.contains(a) <==> forall|j: int|
            0 <= j < g[a].depends.len() ==> #[trigger] resolve(g, g[a].depends@[j]@) is Some,
{
}

/// The keys of `c`, in order, each with an edge to the next and the last
/// with an edge to the first.
pub open spec fn is_cycle(g: Map<Seq<char>, crate::registry::Plugin>, c: Seq<Seq<char>>) -> bool {
    &&& c.len() > 0
    &&& forall|i: int| 0 <= i < c.len() ==> #[trigger] has_edge(g, c[i], cycle_next(c, i))
}

/// The key after position `i` of a cycle.
pub open spec fn cycle_next(c: Seq<Seq<char>>, i: int) -> Seq<char> {
    if i + 1 < c.len() {
        c[i + 1]
    } else {
        c[0]
    }
}

proof fn lemma_prefix_off_cycle(
    g: Map<Seq<char>, crate::registry::Plugin>,
    o: Seq<Seq<char>>,
    cut: int,
    c: Seq<Seq<char>>,
    t: int,
)
    requires
        cut <= o.len(),
        forall|i: int| 0 <= i < cut ==> is_next(g, o.take(i), #[trigger] o[i]),
        is_cycle(g, c),
        0 <= t < cut,
    ensures
        !c.contains(o[t]),
    decreases t,
{
    if c.contains(o[t]) {
        let k = choose|k: int| 0 <= k < c.len() && c[k] == o[t];
        let p = if k > 0 {
            k - 1
        } else {
            c.len() - 1
        };
        assert(has_edge(g, c[p], cycle_next(c, p)));
        assert(cycle_next(c, p) == c[k]);
        assert(is_next(g, o.take(t), o[t]));
        assert(o.take(t).contains(c[p]));
        let u = choose|u: int| 0 <= u < o.take(t).len() && o.take(t)[u] == c[p];
        assert(o[u] == c[p]);
        assert(c.contains(o[u]));
        lemma_prefix_off_cycle(g, o, cut, c, u);
    }
}

/// A key on a cycle of edges stands in the cyclic remainder, so a load order
/// of a registry with a cycle has a remainder that is not empty.
pub proof fn law_cycle_in_remainder(
    g: Map<Seq<char>, crate::registry::Plugin>,
    o: Seq<Seq<char>>,
    cut: int,
    c: Seq<Seq<char>>,
    k: int,
)
    requires
        is_load_order(g, o, cut),
        is_cycle(g, c),
        0 <= k < c.len(),
    ensures
        exists|j: int| cut <= j < o.len() && o[j] == c[k],
        cut < o.len(),
{
    assert(has_edge(g, c[k], cycle_next(c, k)));
    assert(is_active(g, c[k]));
    assert(o.contains(c[k]));
    let j = choose|j: int| 0 <= j < o.len() && o[j] == c[k];
    if j < cut {
        lemma_prefix_off_cycle(g, o, cut, c, j);
        assert(c.contains(o[j]));
    }
}

proof fn lemma_pigeonhole(f: spec_fn(int) -> int, n: int, lo: int, hi: int)
    requires
        forall|s: int| 0 <= s <= n ==> lo <= #[trigger] f(s) < hi,
        n >= hi - lo,
        n >= 0,
    ensures
        exists|a: int, b: int| 0 <= a < b <= n && #[trigger] f(a) == #[trigger] f(b),
    decreases hi - lo,
{
    if hi - lo <= 0 {
        assert(lo <= f(0) < hi);
    } else if exists|a: int| 0 <= a < n && #[trigger] f(a) == f(n) {
        let a = choose|a: int| 0 <= a < n && #[trigger] f(a) == f(n);
        assert(0 <= a < n <= n && f(a) == f(n));
    } else {
        let v = f(n);
        let top = hi - 1;
        let f2 = |s: int|
            if f(s) == top {
                v
            } else {
                f(s)
            };
        assert forall|s: int| 0 <= s <= n - 1 implies lo <= #[trigger] f2(s) < hi - 1 by {
            assert(lo <= f(s) < hi);
            assert(f(s) != v);
        }
        lemma_pigeonhole(f2, n - 1, lo, hi - 1);
        let (a, b) = choose|a: int, b: int| 0 <= a < b <= n - 1 && #[trigger] f2(a) == #[trigger] f2(b);
        assert(f(a) != v && f(b) != v);
        assert(f(a) == f(b));
    }
}

spec fn pred_of(g: Map<Seq<char>, crate::registry::Plugin>, o: Seq<Seq<char>>, cut: int, i: int) -> int {
    choose|j: int| cut <= j < o.len() && j != i && #[trigger] has_edge(g, o[j], o[i])
}

/// Positions in the remainder, each holding a key with an edge into the one
/// before.
spec fn walk(g: Map<Seq<char>, crate::registry::Plugin>, o: Seq<Seq<char>>, cut: int, s: nat) -> int
    decreases s,
{
    if s == 0 {
        cut
    } else {
        pred_of(g, o, cut, walk(g, o, cut, (s - 1) as nat))
    }
}

proof fn lemma_walk(g: Map<Seq<char>, crate::registry::Plugin>, o: Seq<Seq<char>>, cut: int, s: nat)
    requires
        is_load_order(g, o, cut),
        cut < o.len(),
    ensures
        cut <= walk(g, o, cut, s) < o.len(),
        s > 0 ==> has_edge(g, o[walk(g, o, cut, s)], o[walk(g, o, cut, (s - 1) as nat)]),
    decreases s,
{
    if s > 0 {
        let prev = walk(g, o, cut, (s - 1) as nat);
        lemma_walk(g, o, cut, (s - 1) as nat);
        law_cycle_remainder(g, o, cut, prev);
        let j = choose|j: int| cut <= j < o.len() && j != prev && #[trigger] has_edge(g, o[j], o[prev]);
        assert(cut <= pred_of(g, o, cut, prev) < o.len() && has_edge(g, o[pred_of(g, o, cut, prev)], o[prev]));
    }
}

/// A cyclic remainder that is not empty holds a cycle of edges: with
/// `law_cycle_in_remainder`, the remainder is empty exactly when the edges
/// among the active keys have no cycle.
pub proof fn law_remainder_holds_cycle(g: Map<Seq<char>, crate::registry::Plugin>, o: Seq<Seq<char>>, cut: int)
    requires
        is_load_order(g, o, cut),
        cut < o.len(),
    ensures
        exists|c: Seq<Seq<char>>|
            #[trigger] is_cycle(g, c) && forall|k: int| 0 <= k < c.len() ==> o.skip(cut).contains(#[trigger] c[k]),
{
    let m = o.len() - cut;
    let f = |s: int| walk(g, o, cut, s as nat);
    assert forall|s: int| 0 <= s <= m implies cut <= #[trigger] f(s) < o.len() by {
        lemma_walk(g, o, cut, s as nat);
    }
    lemma_pigeonhole(f, m, cut, o.len() as int);
    let (a, b) = choose|a: int, b: int| 0 <= a < b <= m && #[trigger] f(a) == #[trigger] f(b);
    let len = b - a;
    let c = Seq::new(len as nat, |k: int| o[walk(g, o, cut, (b - k) as nat)]);
    assert forall|k: int| 0 <= k < c.len() implies #[trigger] has_edge(g, c[k], cycle_next(c, k)) by {
        if k + 1 < c.len() {
            lemma_walk(g, o, cut, (b - k) as nat);
            assert(((b - k) - 1) as nat == (b - (k + 1)) as nat);
        } else {
            lemma_walk(g, o, cut, (a + 1) as nat);
            assert((b - k) as nat == (a + 1) as nat);
            assert(c[0] == o[walk(g, o, cut, b as nat)]);
            assert(f(a) == f(b));
        }
    }
    assert forall|k: int| 0 <= k < c.len() implies o.skip(cut).contains(#[trigger] c[k]) by {
        lemma_walk(g, o, cut, (b - k) as nat);
        let p = walk(g, o, cut, (b - k) as nat);
        assert(o.skip(cut)[p - cut] == c[k]);
    }
    assert(is_cycle(g, c));
}

} // verus!

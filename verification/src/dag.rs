//! Stage dependency graphs: topological order, cycle detection and readiness.
//!
//! A graph is given as a list of `(stage, stages it depends on)` entries with
//! distinct stage names. Its nodes are the stages named anywhere in it; each
//! dependency must come before the stage that depends on it.
use vstd::prelude::*;

verus! {

/// The view of a dependency list: each stage name with the names it depends on.
pub open spec fn deps_view(d: Seq<(String, Vec<String>)>) -> Seq<(Seq<char>, Seq<Seq<char>>)> {
    d.map_values(|e: (String, Vec<String>)| (e.0@, names_view(e.1@)))
}

pub open spec fn names_view(v: Seq<String>) -> Seq<Seq<char>> {
    v.map_values(|s: String| s@)
}

/// Stage names are distinct, as the keys of a map.
pub open spec fn keys_distinct(d: Seq<(Seq<char>, Seq<Seq<char>>)>) -> bool {
    forall|i: int, j: int| 0 <= i < d.len() && 0 <= j < d.len() && i != j ==> d[i].0 != d[j].0
}

/// `x` is named in the graph, as a stage or as a dependency.
pub open spec fn is_node(d: Seq<(Seq<char>, Seq<Seq<char>>)>, x: Seq<char>) -> bool {
    exists|i: int| 0 <= i < d.len() && (d[i].0 == x || d[i].1.contains(x))
}

/// `o` lists every node exactly once, each dependency before its dependant.
pub open spec fn is_topo_order(d: Seq<(Seq<char>, Seq<Seq<char>>)>, o: Seq<Seq<char>>) -> bool {
    &&& o.no_duplicates()
    &&& forall|x: Seq<char>| is_node(d, x) <==> o.contains(x)
    &&& forall|i: int, j: int, a: int, b: int|
        #![trigger d[i].1[j], o[a], o[b]]
        0 <= i < d.len() && 0 <= j < d[i].1.len() && 0 <= a < o.len() && 0 <= b < o.len() && o[a]
            == d[i].0 && o[b] == d[i].1[j] ==> b < a
}

/// The graph has a topological order, that is, no dependency cycle.
pub open spec fn is_acyclic(d: Seq<(Seq<char>, Seq<Seq<char>>)>) -> bool {
    exists|o: Seq<Seq<char>>| is_topo_order(d, o)
}

/// The dependencies listed for `stage`, if it has an entry.
pub open spec fn deps_of(d: Seq<(Seq<char>, Seq<Seq<char>>)>, stage: Seq<char>) -> Option<
    Seq<Seq<char>>,
> {
    if exists|i: int| 0 <= i < d.len() && d[i].0 == stage {
        let i = choose|i: int| 0 <= i < d.len() && d[i].0 == stage;
        Some(d[i].1)
    } else {
        None
    }
}

/// `o` lists nodes, each stage after every stage it depends on: a sorted
/// start that need not reach every node.
pub open spec fn is_sorted_prefix(d: Seq<(Seq<char>, Seq<Seq<char>>)>, o: Seq<Seq<char>>) -> bool {
    &&& forall|a: int| 0 <= a < o.len() ==> is_node(d, #[trigger] o[a])
    &&& forall|i: int, j: int, a: int|
        #![trigger d[i].1[j], o[a]]
        0 <= i < d.len() && 0 <= j < d[i].1.len() && 0 <= a < o.len() && o[a] == d[i].0 ==> listed_before(
            o,
            a,
            d[i].1[j],
        )
}

/// `x` occurs in `o` before position `a`.
pub open spec fn listed_before(o: Seq<Seq<char>>, a: int, x: Seq<char>) -> bool {
    exists|b: int| 0 <= b < a && o[b] == x
}

/// `x` can be sorted: some sorted start reaches it. A node cannot be sorted
/// exactly when it lies on a dependency cycle or depends, step by step, on
/// a stage that does.
pub open spec fn sortable(d: Seq<(Seq<char>, Seq<Seq<char>>)>, x: Seq<char>) -> bool {
    exists|o: Seq<Seq<char>>| is_sorted_prefix(d, o) && o.contains(x)
}

/// `s` with `x` appended unless already there.
pub open spec fn add_name(s: Seq<Seq<char>>, x: Seq<char>) -> Seq<Seq<char>> {
    if s.contains(x) {
        s
    } else {
        s.push(x)
    }
}

pub open spec fn add_names(s: Seq<Seq<char>>, xs: Seq<Seq<char>>) -> Seq<Seq<char>>
    decreases xs.len(),
{
    if xs.len() == 0 {
        s
    } else {
        add_name(add_names(s, xs.drop_last()), xs.last())
    }
}

/// The nodes in the order they are first named: entry by entry, the stage
/// and then its dependencies.
pub open spec fn node_order(d: Seq<(Seq<char>, Seq<Seq<char>>)>) -> Seq<Seq<char>>
    decreases d.len(),
{
    if d.len() == 0 {
        Seq::empty()
    } else {
        add_names(add_name(node_order(d.drop_last()), d.last().0), d.last().1)
    }
}

/// The first node, in [`node_order`], that cannot be sorted; none when the
/// graph has no cycle.
pub open spec fn first_unsorted(d: Seq<(Seq<char>, Seq<Seq<char>>)>) -> Option<Seq<char>> {
    let n = node_order(d);
    if exists|k: int| 0 <= k < n.len() && !sortable(d, #[trigger] n[k]) {
        let k = choose|k: int|
            0 <= k < n.len() && !sortable(d, #[trigger] n[k]) && forall|j: int| 0 <= j < k ==> sortable(d, n[j]);
        Some(n[k])
    } else {
        None
    }
}

// ── Index form of the graph ─────────────────────────────────────────────────
/// `n` lists the nodes of `d` once each.
spec fn names_ok(d: Seq<(Seq<char>, Seq<Seq<char>>)>, n: Seq<Seq<char>>) -> bool {
    &&& n.no_duplicates()
    &&& forall|x: Seq<char>| is_node(d, x) <==> n.contains(x)
}

/// `p[k]` lists, by index into `n`, the dependencies of node `n[k]`.
spec fn parents_ok(d: Seq<(Seq<char>, Seq<Seq<char>>)>, n: Seq<Seq<char>>, p: Seq<Vec<usize>>) -> bool {
    &&& p.len() == n.len()
    &&& forall|k: int, j: int|
        #![trigger p[k]@[j]]
        0 <= k < p.len() && 0 <= j < p[k]@.len() ==> p[k]@[j] < n.len() && exists|i: int|
            0 <= i < d.len() && d[i].0 == n[k] && j < d[i].1.len() && d[i].1[j] == n[p[k]@[j] as int]
    &&& forall|i: int, k: int|
        #![trigger d[i], p[k]]
        0 <= i < d.len() && 0 <= k < n.len() && n[k] == d[i].0 ==> p[k]@.len() == d[i].1.len()
            && forall|j: int| #![trigger p[k]@[j]] 0 <= j < d[i].1.len() ==> n[p[k]@[j] as int] == d[i].1[j]
}

/// `q` occurs in `o` before position `a`.
spec fn occurs_before(o: Seq<usize>, a: int, q: usize) -> bool {
    exists|b: int| 0 <= b < a && o[b] == q
}

/// Every index in `o` has its dependencies earlier in `o`.
spec fn parents_before(p: Seq<Vec<usize>>, o: Seq<usize>) -> bool {
    forall|a: int, j: int|
        #![trigger p[o[a] as int]@[j]]
        0 <= a < o.len() && 0 <= j < p[o[a] as int]@.len() ==> occurs_before(o, a, p[o[a] as int]@[j])
}

/// Node `k` waits on a dependency that is not done.
spec fn blocked(p: Seq<Vec<usize>>, done: Seq<bool>, k: int) -> bool {
    exists|j: int| 0 <= j < p[k]@.len() && !done[p[k]@[j] as int]
}

/// Every node that is not done is blocked.
spec fn stuck(p: Seq<Vec<usize>>, done: Seq<bool>) -> bool {
    forall|k: int| 0 <= k < done.len() && !done[k] ==> #[trigger] blocked(p, done, k)
}

/// `o` lists the done nodes once each, dependencies first.
spec fn order_ok(p: Seq<Vec<usize>>, done: Seq<bool>, o: Seq<usize>) -> bool {
    &&& o.no_duplicates()
    &&& forall|a: int| 0 <= a < o.len() ==> o[a] < done.len() && done[o[a] as int]
    &&& forall|t: usize| #![trigger o.contains(t)] t < done.len() && done[t as int] ==> o.contains(t)
    &&& parents_before(p, o)
}

spec fn index_in(n: Seq<Seq<char>>, x: Seq<char>) -> int {
    choose|k: int| 0 <= k < n.len() && n[k] == x
}

spec fn count_false(s: Seq<bool>) -> nat
    decreases s.len(),
{
    if s.len() == 0 {
        0
    } else {
        count_false(s.drop_last()) + if s.last() {
            0nat
        } else {
            1nat
        }
    }
}

proof fn lemma_count_false_update(s: Seq<bool>, k: int)
    requires
        0 <= k < s.len(),
        !s[k],
    ensures
        count_false(s.update(k, true)) + 1 == count_false(s),
    decreases s.len(),
{
    let t = s.update(k, true);
    if k == s.len() - 1 {
        assert(t.drop_last() == s.drop_last());
    } else {
        assert(t.drop_last() == s.drop_last().update(k, true));
        lemma_count_false_update(s.drop_last(), k);
    }
}

/// Marking a ready node done and appending it keeps the order valid.
proof fn lemma_order_push(p: Seq<Vec<usize>>, done: Seq<bool>, o: Seq<usize>, k: int)
    requires
        order_ok(p, done, o),
        done.len() <= usize::MAX,
        p.len() == done.len(),
        forall|t: int, j: int|
            #![trigger p[t]@[j]]
            0 <= t < p.len() && 0 <= j < p[t]@.len() ==> p[t]@[j] < done.len(),
        0 <= k < done.len(),
        !done[k],
        forall|j: int| 0 <= j < p[k]@.len() ==> done[#[trigger] p[k]@[j] as int],
    ensures
        order_ok(p, done.update(k, true), o.push(k as usize)),
{
    let nd = done.update(k, true);
    let no = o.push(k as usize);
    assert(!o.contains(k as usize)) by {
        if o.contains(k as usize) {
            let a = choose|a: int| 0 <= a < o.len() && o[a] == k as usize;
            assert(done[o[a] as int]);
        }
    }
    assert forall|a: int, b: int| 0 <= a < no.len() && 0 <= b < no.len() && a != b implies no[a]
        != no[b] by {
        if a < o.len() && b < o.len() {
            assert(o[a] != o[b]);
        } else if a < o.len() {
            assert(o[a] != k as usize);
        } else if b < o.len() {
            assert(o[b] != k as usize);
        }
    }
    assert forall|a: int| 0 <= a < no.len() implies no[a] < nd.len() && nd[no[a] as int] by {
        if a < o.len() {
            assert(no[a] == o[a]);
            assert(done[o[a] as int]);
        }
    }
    assert forall|t: usize| #![trigger no.contains(t)] t < nd.len() && nd[t as int] implies no.contains(t) by {
        if t == k {
            assert(no[o.len() as int] == k as usize);
        } else {
            assert(done[t as int]);
            assert(o.contains(t));
            let a = choose|a: int| 0 <= a < o.len() && o[a] == t;
            assert(no[a] == t);
        }
    }
    assert forall|a: int, j: int|
        #![trigger p[no[a] as int]@[j]]
        0 <= a < no.len() && 0 <= j < p[no[a] as int]@.len() implies occurs_before(no, a, p[no[a] as int]@[j]) by {
        if a < o.len() {
            assert(no[a] == o[a]);
            assert(p[o[a] as int]@[j] == p[no[a] as int]@[j]);
            let b = choose|b: int| 0 <= b < a && o[b] == p[o[a] as int]@[j];
            assert(no[b] == o[b]);
        } else {
            let q = p[k]@[j];
            assert(no[a] == k as usize);
            assert(done[q as int]);
            assert(o.contains(q));
            let b = choose|b: int| 0 <= b < o.len() && o[b] == q;
            assert(no[b] == q);
        }
    }
    assert(order_ok(p, nd, no));
}

/// A complete index order with dependencies first gives a topological order.
proof fn lemma_order_is_topo(
    d: Seq<(Seq<char>, Seq<Seq<char>>)>,
    n: Seq<Seq<char>>,
    p: Seq<Vec<usize>>,
    o: Seq<usize>,
)
    requires
        names_ok(d, n),
        parents_ok(d, n, p),
        n.len() <= usize::MAX,
        o.no_duplicates(),
        forall|a: int| 0 <= a < o.len() ==> o[a] < n.len(),
        forall|k: usize| k < n.len() ==> #[trigger] o.contains(k),
        parents_before(p, o),
    ensures
        is_topo_order(d, o.map_values(|x: usize| n[x as int])),
{
    let out = o.map_values(|x: usize| n[x as int]);
    assert forall|a: int, b: int| 0 <= a < out.len() && 0 <= b < out.len() && a != b implies out[a]
        != out[b] by {
        assert(o[a] != o[b]);
    }
    assert forall|x: Seq<char>| is_node(d, x) <==> out.contains(x) by {
        if is_node(d, x) {
            assert(n.contains(x));
            let k = choose|k: int| 0 <= k < n.len() && n[k] == x;
            assert(o.contains(k as usize));
            let a = choose|a: int| 0 <= a < o.len() && o[a] == k as usize;
            assert(out[a] == n[k]);
        }
        if out.contains(x) {
            let a = choose|a: int| 0 <= a < out.len() && out[a] == x;
            assert(n.contains(n[o[a] as int]));
        }
    }
    assert forall|i: int, j: int, a: int, b: int|
        #![trigger d[i].1[j], out[a], out[b]]
        0 <= i < d.len() && 0 <= j < d[i].1.len() && 0 <= a < out.len() && 0 <= b < out.len()
            && out[a] == d[i].0 && out[b] == d[i].1[j] implies b < a by {
        let k = o[a] as int;
        assert(n[k] == d[i].0);
        assert(p[k]@.len() == d[i].1.len());
        let q = p[k]@[j];
        assert(n[q as int] == d[i].1[j]);
        assert(occurs_before(o, a, p[o[a] as int]@[j]));
        let c = choose|c: int| 0 <= c < a && o[c] == p[o[a] as int]@[j];
        assert(n[o[b] as int] == n[q as int]);
        assert(o[b] == q);
        assert(o[c] == q);
    }
}

/// A topological order is a sorted start that reaches every node.
proof fn lemma_topo_is_sorted(d: Seq<(Seq<char>, Seq<Seq<char>>)>, o: Seq<Seq<char>>)
    requires
        is_topo_order(d, o),
    ensures
        is_sorted_prefix(d, o),
{
    assert forall|a: int| 0 <= a < o.len() implies is_node(d, #[trigger] o[a]) by {
        assert(o.contains(o[a]));
    }
    assert forall|i: int, j: int, a: int|
        #![trigger d[i].1[j], o[a]]
        0 <= i < d.len() && 0 <= j < d[i].1.len() && 0 <= a < o.len() && o[a] == d[i].0 implies listed_before(
            o,
            a,
            d[i].1[j],
        ) by {
        assert(d[i].1.contains(d[i].1[j]));
        assert(is_node(d, d[i].1[j]));
        let b = choose|b: int| 0 <= b < o.len() && o[b] == d[i].1[j];
        assert(b < a);
    }
}

/// The nodes done so far, in the order they were done, form a sorted start,
/// so each of them can be sorted.
proof fn lemma_done_sortable(
    d: Seq<(Seq<char>, Seq<Seq<char>>)>,
    n: Seq<Seq<char>>,
    p: Seq<Vec<usize>>,
    done: Seq<bool>,
    o: Seq<usize>,
)
    requires
        names_ok(d, n),
        parents_ok(d, n, p),
        done.len() == n.len(),
        n.len() <= usize::MAX,
        order_ok(p, done, o),
    ensures
        forall|k: int| 0 <= k < n.len() && done[k] ==> #[trigger] sortable(d, n[k]),
{
    let out = o.map_values(|x: usize| n[x as int]);
    assert forall|a: int| 0 <= a < out.len() implies is_node(d, #[trigger] out[a]) by {
        assert(n.contains(n[o[a] as int]));
    }
    assert forall|i: int, j: int, a: int|
        #![trigger d[i].1[j], out[a]]
        0 <= i < d.len() && 0 <= j < d[i].1.len() && 0 <= a < out.len() && out[a] == d[i].0 implies listed_before(
            out,
            a,
            d[i].1[j],
        ) by {
        let k = o[a] as int;
        assert(n[k] == d[i].0);
        assert(p[k]@.len() == d[i].1.len());
        let q = p[k]@[j];
        assert(n[q as int] == d[i].1[j]);
        assert(occurs_before(o, a, p[o[a] as int]@[j]));
        let c = choose|c: int| 0 <= c < a && o[c] == p[o[a] as int]@[j];
        assert(out[c] == n[q as int]);
        assert(0 <= c < a && out[c] == d[i].1[j]);
    }
    assert(is_sorted_prefix(d, out));
    assert forall|k: int| 0 <= k < n.len() && done[k] implies #[trigger] sortable(d, n[k]) by {
        assert(done[(k as usize) as int]);
        assert(o.contains(k as usize));
        let a = choose|a: int| 0 <= a < o.len() && o[a] == k as usize;
        assert(out[a] == n[k]);
        assert(out.contains(n[k]));
    }
}

/// In a stuck state, every entry of a sorted start is done: its node's
/// blocking dependency would have to come earlier in it.
proof fn lemma_sorted_done(
    d: Seq<(Seq<char>, Seq<Seq<char>>)>,
    n: Seq<Seq<char>>,
    p: Seq<Vec<usize>>,
    done: Seq<bool>,
    o: Seq<Seq<char>>,
    a: int,
)
    requires
        names_ok(d, n),
        parents_ok(d, n, p),
        done.len() == n.len(),
        stuck(p, done),
        is_sorted_prefix(d, o),
        0 <= a < o.len(),
    ensures
        0 <= index_in(n, o[a]) < n.len(),
        n[index_in(n, o[a])] == o[a],
        done[index_in(n, o[a])],
    decreases a,
{
    assert(is_node(d, o[a]));
    assert(n.contains(o[a]));
    let k = index_in(n, o[a]);
    if !done[k] {
        assert(blocked(p, done, k));
        let j = choose|j: int| 0 <= j < p[k]@.len() && !done[p[k]@[j] as int];
        let q = p[k]@[j] as int;
        let i = choose|i: int|
            0 <= i < d.len() && d[i].0 == n[k] && j < d[i].1.len() && d[i].1[j] == n[p[k]@[j] as int];
        assert(d[i].1[j] == n[q]);
        assert(o[a] == d[i].0);
        assert(listed_before(o, a, d[i].1[j]));
        let b = choose|b: int| 0 <= b < a && o[b] == d[i].1[j];
        lemma_sorted_done(d, n, p, done, o, b);
        assert(index_in(n, o[b]) == q);
    }
}

/// In a stuck state, a node not done cannot be sorted.
proof fn lemma_stuck_unsortable(
    d: Seq<(Seq<char>, Seq<Seq<char>>)>,
    n: Seq<Seq<char>>,
    p: Seq<Vec<usize>>,
    done: Seq<bool>,
    k: int,
)
    requires
        names_ok(d, n),
        parents_ok(d, n, p),
        done.len() == n.len(),
        stuck(p, done),
        0 <= k < n.len(),
        !done[k],
    ensures
        !sortable(d, n[k]),
{
    if sortable(d, n[k]) {
        let o = choose|o: Seq<Seq<char>>| is_sorted_prefix(d, o) && o.contains(n[k]);
        let a = choose|a: int| 0 <= a < o.len() && o[a] == n[k];
        lemma_sorted_done(d, n, p, done, o, a);
        assert(index_in(n, o[a]) == k);
    }
}

// ── Executable ──────────────────────────────────────────────────────────────
/// Index of `s` in `names`.
fn find_name(names: &Vec<String>, s: &String) -> (r: Option<usize>)
    ensures
        match r {
            Some(k) => k < names.len() && names@[k as int]@ == s@,
            None => forall|k: int| 0 <= k < names.len() ==> names@[k]@ != s@,
        },
{
    let mut k: usize = 0;
    while k < names.len()
        invariant
            k <= names.len(),
            forall|j: int| 0 <= j < k ==> names@[j]@ != s@,
        decreases names.len() - k,
    {
        if names[k] == *s {
            return Some(k);
        }
        k += 1;
    }
    None
}

/// Adds `s` to `names` unless present; returns its index.
fn intern(names: &mut Vec<String>, s: &String) -> (k: usize)
    requires
        names_view(old(names)@).no_duplicates(),
    ensures
        names_view(final(names)@).no_duplicates(),
        k < final(names).len(),
        final(names)@[k as int]@ == s@,
        forall|x: Seq<char>|
            #![trigger names_view(final(names)@).contains(x)]
            names_view(final(names)@).contains(x) <==> (names_view(old(names)@).contains(x) || x
                == s@),
        names_view(old(names)@).is_prefix_of(names_view(final(names)@)),
        names_view(final(names)@) == add_name(names_view(old(names)@), s@),
{
    let ghost before = names_view(names@);
    match find_name(names, s) {
        Some(k) => {
            assert(before[k as int] == s@);
            assert(before.contains(s@));
            assert forall|x: Seq<char>| before.contains(x) <==> (before.contains(x) || x == s@) by {
                if x == s@ {
                    assert(before[k as int] == x);
                }
            }
            assert(before.subrange(0, before.len() as int) == before);
            k
        },
        None => {
            names.push(s.clone());
            let ghost after = names_view(names@);
            assert(after == before.push(s@));
            assert(!before.contains(s@)) by {
                if before.contains(s@) {
                    let j = choose|j: int| 0 <= j < before.len() && before[j] == s@;
                    assert(names@[j]@ == s@);
                }
            }
            assert forall|x: Seq<char>| after.contains(x) <==> (before.contains(x) || x == s@) by {
                if after.contains(x) {
                    let j = choose|j: int| 0 <= j < after.len() && after[j] == x;
                    if j < before.len() {
                        assert(before[j] == x);
                    }
                }
                if before.contains(x) {
                    let j = choose|j: int| 0 <= j < before.len() && before[j] == x;
                    assert(after[j] == x);
                }
                if x == s@ {
                    assert(after[before.len() as int] == x);
                }
            }
            assert(after.subrange(0, before.len() as int) == before);
            names.len() - 1
        },
    }
}

/// The list of all nodes, each once.
fn collect_names(deps: &Vec<(String, Vec<String>)>) -> (names: Vec<String>)
    ensures
        names_ok(deps_view(deps@), names_view(names@)),
        names_view(names@) == node_order(deps_view(deps@)),
{
    let ghost d = deps_view(deps@);
    let mut names: Vec<String> = Vec::new();
    let mut i: usize = 0;
    assert(d.take(0) =~= Seq::<(Seq<char>, Seq<Seq<char>>)>::empty());
    assert(names_view(names@) =~= Seq::<Seq<char>>::empty());
    while i < deps.len()
        invariant
            i <= deps.len(),
            d == deps_view(deps@),
            names_view(names@) == node_order(d.take(i as int)),
            names_view(names@).no_duplicates(),
            forall|x: Seq<char>|
                #![trigger names_view(names@).contains(x)]
                names_view(names@).contains(x) <==> exists|e: int|
                    0 <= e < i && (d[e].0 == x || d[e].1.contains(x)),
        decreases deps.len() - i,
    {
        let ghost before = names_view(names@);
        assert(d[i as int].0 == deps@[i as int].0@);
        intern(&mut names, &deps[i].0);
        let ghost head = names_view(names@);
        let mut j: usize = 0;
        assert(d[i as int].1.take(0) =~= Seq::<Seq<char>>::empty());
        while j < deps[i].1.len()
            invariant
                i < deps.len(),
                j <= deps@[i as int].1.len(),
                d == deps_view(deps@),
                d[i as int].1.len() == deps@[i as int].1.len(),
                head == add_name(node_order(d.take(i as int)), d[i as int].0),
                names_view(names@) == add_names(head, d[i as int].1.take(j as int)),
                names_view(names@).no_duplicates(),
                forall|x: Seq<char>|
                    #![trigger names_view(names@).contains(x)]
                    names_view(names@).contains(x) <==> (before.contains(x) || x == d[i as int].0
                        || exists|t: int| 0 <= t < j && d[i as int].1[t] == x),
            decreases deps@[i as int].1.len() - j,
        {
            let ghost mid = names_view(names@);
            assert(d[i as int].1[j as int] == deps@[i as int].1@[j as int]@);
            intern(&mut names, &deps[i].1[j]);
            assert(d[i as int].1.take(j + 1).drop_last() =~= d[i as int].1.take(j as int));
            assert(d[i as int].1.take(j + 1).last() == d[i as int].1[j as int]);
            assert forall|x: Seq<char>| names_view(names@).contains(x) <==> (before.contains(x) || x
                == d[i as int].0 || exists|t: int| 0 <= t < j + 1 && d[i as int].1[t] == x) by {
                let sv = d[i as int].1[j as int];
                if names_view(names@).contains(x) {
                    if x == sv {
                        assert(0 <= j < j + 1 && d[i as int].1[j as int] == x);
                    } else {
                        assert(mid.contains(x));
                        if !before.contains(x) && x != d[i as int].0 {
                            let t = choose|t: int| 0 <= t < j && d[i as int].1[t] == x;
                            assert(0 <= t < j + 1 && d[i as int].1[t] == x);
                        }
                    }
                }
                if before.contains(x) || x == d[i as int].0 {
                    assert(mid.contains(x));
                } else if exists|t: int| 0 <= t < j + 1 && d[i as int].1[t] == x {
                    let t = choose|t: int| 0 <= t < j + 1 && d[i as int].1[t] == x;
                    if t < j {
                        assert(0 <= t < j && d[i as int].1[t] == x);
                        assert(mid.contains(x));
                    } else {
                        assert(x == sv);
                    }
                }
            }
            j += 1;
        }
        assert(d[i as int].1.take(j as int) =~= d[i as int].1);
        assert(d.take(i + 1).drop_last() =~= d.take(i as int));
        assert(d.take(i + 1).last() == d[i as int]);
        assert forall|x: Seq<char>| names_view(names@).contains(x) <==> exists|e: int|
            0 <= e < i + 1 && (d[e].0 == x || d[e].1.contains(x)) by {
            if names_view(names@).contains(x) {
                if before.contains(x) {
                    let e = choose|e: int| 0 <= e < i && (d[e].0 == x || d[e].1.contains(x));
                    assert(0 <= e < i + 1 && (d[e].0 == x || d[e].1.contains(x)));
                } else {
                    if x != d[i as int].0 {
                        let t = choose|t: int| 0 <= t < j && d[i as int].1[t] == x;
                        assert(d[i as int].1.contains(x));
                    }
                    assert(0 <= i < i + 1 && (d[i as int].0 == x || d[i as int].1.contains(x)));
                }
            }
            if exists|e: int| 0 <= e < i + 1 && (d[e].0 == x || d[e].1.contains(x)) {
                let e = choose|e: int| 0 <= e < i + 1 && (d[e].0 == x || d[e].1.contains(x));
                if e < i {
                    assert(0 <= e < i && (d[e].0 == x || d[e].1.contains(x)));
                    assert(before.contains(x));
                } else if d[e].0 != x {
                    let t = choose|t: int| 0 <= t < d[i as int].1.len() && d[i as int].1[t] == x;
                    assert(0 <= t < j && d[i as int].1[t] == x);
                }
                assert(names_view(names@).contains(x));
            }
        }
        i += 1;
    }
    proof {
        assert(d.take(i as int) =~= d);
        assert forall|x: Seq<char>| is_node(d, x) <==> names_view(names@).contains(x) by {
            if is_node(d, x) {
                let e = choose|e: int| 0 <= e < d.len() && (d[e].0 == x || d[e].1.contains(x));
                assert(0 <= e < i && (d[e].0 == x || d[e].1.contains(x)));
            }
            if names_view(names@).contains(x) {
                let e = choose|e: int| 0 <= e < i && (d[e].0 == x || d[e].1.contains(x));
                assert(0 <= e < d.len() && (d[e].0 == x || d[e].1.contains(x)));
            }
        }
    }
    names
}

/// Indices in `names` of each name in `list`.
fn indices_of(names: &Vec<String>, list: &Vec<String>) -> (r: Vec<usize>)
    requires
        forall|j: int| 0 <= j < list.len() ==> names_view(names@).contains(#[trigger] list@[j]@),
    ensures
        r.len() == list.len(),
        forall|j: int|
            0 <= j < r.len() ==> r@[j] < names.len() && names@[#[trigger] r@[j] as int]@ == list@[j]@,
{
    let mut r: Vec<usize> = Vec::new();
    let mut j: usize = 0;
    while j < list.len()
        invariant
            j <= list.len(),
            r.len() == j,
            forall|t: int| 0 <= t < list.len() ==> names_view(names@).contains(#[trigger] list@[t]@),
            forall|t: int|
                0 <= t < r.len() ==> r@[t] < names.len() && names@[#[trigger] r@[t] as int]@ == list@[t]@,
        decreases list.len() - j,
    {
        assert(names_view(names@).contains(list@[j as int]@));
        match find_name(names, &list[j]) {
            Some(k) => {
                r.push(k);
            },
            None => {
                proof {
                    let t = choose|t: int|
                        0 <= t < names_view(names@).len() && names_view(names@)[t] == list@[j as int]@;
                    assert(names@[t]@ == list@[j as int]@);
                }
                r.push(0);
            },
        }
        j += 1;
    }
    r
}

/// Dependency indices of every node.
fn parent_indices(deps: &Vec<(String, Vec<String>)>, names: &Vec<String>) -> (p: Vec<Vec<usize>>)
    requires
        keys_distinct(deps_view(deps@)),
        names_ok(deps_view(deps@), names_view(names@)),
    ensures
        parents_ok(deps_view(deps@), names_view(names@), p@),
{
    let ghost d = deps_view(deps@);
    let ghost n = names_view(names@);
    let mut p: Vec<Vec<usize>> = Vec::new();
    let mut k: usize = 0;
    while k < names.len()
        invariant
            k <= names.len(),
            p.len() == k,
            forall|t: int| 0 <= t < k ==> p@[t]@.len() == 0,
        decreases names.len() - k,
    {
        p.push(Vec::new());
        k += 1;
    }
    let mut i: usize = 0;
    while i < deps.len()
        invariant
            i <= deps.len(),
            d == deps_view(deps@),
            n == names_view(names@),
            keys_distinct(d),
            names_ok(d, n),
            p.len() == n.len(),
            // a node keyed by an entry not visited yet has no dependencies so far
            forall|k: int|
                0 <= k < n.len() && !(exists|e: int| 0 <= e < i && d[e].0 == n[k]) ==> p@[k]@.len()
                    == 0,
            forall|k: int, j: int|
                #![trigger p@[k]@[j]]
                0 <= k < p.len() && 0 <= j < p@[k]@.len() ==> p@[k]@[j] < n.len() && exists|e: int|
                    0 <= e < d.len() && d[e].0 == n[k] && j < d[e].1.len() && d[e].1[j] == n[p@[k]@[j] as int],
            forall|e: int, k: int|
                #![trigger d[e], p@[k]]
                0 <= e < i && 0 <= k < n.len() && n[k] == d[e].0 ==> p@[k]@.len() == d[e].1.len()
                    && forall|j: int| #![trigger p@[k]@[j]] 0 <= j < d[e].1.len() ==> n[p@[k]@[j] as int] == d[e].1[j],
        decreases deps.len() - i,
    {
        assert(d[i as int].0 == deps@[i as int].0@);
        assert(is_node(d, d[i as int].0));
        assert(n.contains(d[i as int].0));
        let key = match find_name(names, &deps[i].0) {
            Some(k) => k,
            None => {
                proof {
                    let t = choose|t: int| 0 <= t < n.len() && n[t] == d[i as int].0;
                    assert(names@[t]@ == deps@[i as int].0@);
                }
                0
            },
        };
        proof {
            assert forall|j: int| 0 <= j < deps@[i as int].1.len() implies names_view(
                names@,
            ).contains(#[trigger] deps@[i as int].1@[j]@) by {
                assert(d[i as int].1[j] == deps@[i as int].1@[j]@);
                assert(d[i as int].1.contains(d[i as int].1[j]));
                assert(is_node(d, d[i as int].1[j]));
            }
        }
        let idx = indices_of(names, &deps[i].1);
        let ghost old_p = p@;
        // the entry's key has had no dependencies recorded yet
        assert(!(exists|e: int| 0 <= e < i && d[e].0 == n[key as int])) by {
            if exists|e: int| 0 <= e < i && d[e].0 == n[key as int] {
                let e = choose|e: int| 0 <= e < i && d[e].0 == n[key as int];
                assert(d[e].0 == d[i as int].0);
            }
        }
        p.set(key, idx);
        proof {
            assert forall|k: int, j: int|
                #![trigger p@[k]@[j]]
                0 <= k < p.len() && 0 <= j < p@[k]@.len() implies p@[k]@[j] < n.len() && exists|e: int|
                    0 <= e < d.len() && d[e].0 == n[k] && j < d[e].1.len() && d[e].1[j] == n[p@[k]@[j] as int] by {
                if k == key {
                    assert(d[i as int].1[j] == deps@[i as int].1@[j]@);
                    assert(n[p@[k]@[j] as int] == names@[idx@[j] as int]@);
                    assert(0 <= i < d.len() && d[i as int].0 == n[k] && j < d[i as int].1.len()
                        && d[i as int].1[j] == n[p@[k]@[j] as int]);
                } else {
                    assert(p@[k] == old_p[k]);
                    assert(p@[k]@[j] == old_p[k]@[j]);
                }
            }
            assert forall|e: int, k: int|
                #![trigger d[e], p@[k]]
                0 <= e < i + 1 && 0 <= k < n.len() && n[k] == d[e].0 implies p@[k]@.len() == d[e].1.len()
                    && forall|j: int| #![trigger p@[k]@[j]] 0 <= j < d[e].1.len() ==> n[p@[k]@[j] as int] == d[e].1[j] by {
                if e == i {
                    assert(k == key) by {
                        if k != key {
                            assert(n[k] != n[key as int]);
                        }
                    }
                    assert forall|j: int| #![trigger p@[k]@[j]] 0 <= j < d[e].1.len() implies n[p@[k]@[j] as int] == d[e].1[j] by {
                        assert(d[i as int].1[j] == deps@[i as int].1@[j]@);
                        assert(n[p@[k]@[j] as int] == names@[idx@[j] as int]@);
                    }
                } else {
                    assert(d[e].0 != d[i as int].0);
                    assert(k != key);
                    assert(p@[k] == old_p[k]);
                    assert(old_p[k]@.len() == d[e].1.len());
                    assert forall|j: int| #![trigger p@[k]@[j]] 0 <= j < d[e].1.len() implies n[p@[k]@[j] as int] == d[e].1[j] by {
                        assert(p@[k]@[j] == old_p[k]@[j]);
                    }
                }
            }
            assert forall|k: int|
                0 <= k < n.len() && !(exists|e: int| 0 <= e < i + 1 && d[e].0 == n[k]) implies p@[k]@.len() == 0 by {
                if k == key as int {
                    assert(0 <= i < i + 1 && d[i as int].0 == n[k]);
                } else {
                    assert(p@[k] == old_p[k]);
                }
            }
        }
        i += 1;
    }
    p
}

/// A node that is not done and whose dependencies all are, if any.
fn find_ready(p: &Vec<Vec<usize>>, done: &Vec<bool>) -> (r: Option<usize>)
    requires
        p.len() == done.len(),
        forall|k: int, j: int|
            #![trigger p@[k]@[j]]
            0 <= k < p.len() && 0 <= j < p@[k]@.len() ==> p@[k]@[j] < done.len(),
    ensures
        match r {
            Some(k) => k < done.len() && !done@[k as int] && forall|j: int|
                0 <= j < p@[k as int]@.len() ==> done@[#[trigger] p@[k as int]@[j] as int],
            None => stuck(p@, done@),
        },
{
    let mut k: usize = 0;
    while k < done.len()
        invariant
            k <= done.len(),
            p.len() == done.len(),
            forall|t: int, j: int|
                #![trigger p@[t]@[j]]
                0 <= t < p.len() && 0 <= j < p@[t]@.len() ==> p@[t]@[j] < done.len(),
            forall|t: int| 0 <= t < k && !done@[t] ==> #[trigger] blocked(p@, done@, t),
        decreases done.len() - k,
    {
        if !done[k] {
            let mut j: usize = 0;
            let mut ready = true;
            while j < p[k].len()
                invariant
                    k < done.len(),
                    p.len() == done.len(),
                    j <= p@[k as int]@.len(),
                    forall|t: int, jj: int|
                        #![trigger p@[t]@[jj]]
                        0 <= t < p.len() && 0 <= jj < p@[t]@.len() ==> p@[t]@[jj] < done.len(),
                    ready ==> forall|t: int| 0 <= t < j ==> done@[#[trigger] p@[k as int]@[t] as int],
                    !ready ==> blocked(p@, done@, k as int),
                decreases p@[k as int]@.len() - j,
            {
                let q = p[k][j];
                if !done[q] {
                    ready = false;
                }
                j += 1;
            }
            if ready {
                return Some(k);
            }
        }
        k += 1;
    }
    None
}

/// Topological sort on a stage dependency graph.
///
/// `deps` lists, for each stage, the stages it depends on. Returns `Ok(sorted)`
/// (dependencies first, dependants last) or, when the stages form a cycle,
/// `Err(node)` with the first node (as first named) left unsorted: one on a
/// cycle or depending on one.
pub fn topo_sort(deps: &Vec<(String, Vec<String>)>) -> (r: Result<Vec<String>, String>)
    requires
        keys_distinct(deps_view(deps@)),
    ensures
        match r {
            Ok(sorted) => is_topo_order(deps_view(deps@), names_view(sorted@)),
            Err(node) => !is_acyclic(deps_view(deps@)) && is_node(deps_view(deps@), node@) && !sortable(
                deps_view(deps@),
                node@,
            ) && first_unsorted(deps_view(deps@)) == Some(node@),
        },
{
    let ghost d = deps_view(deps@);
    let names = collect_names(deps);
    let ghost n = names_view(names@);
    let p = parent_indices(deps, &names);
    let mut done: Vec<bool> = Vec::new();
    let mut k: usize = 0;
    while k < names.len()
        invariant
            k <= names.len(),
            done.len() == k,
            forall|t: int| 0 <= t < k ==> !done@[t],
        decreases names.len() - k,
    {
        done.push(false);
        k += 1;
    }
    let mut order: Vec<usize> = Vec::new();
    loop
        invariant
            d == deps_view(deps@),
            n == names_view(names@),
            n == node_order(d),
            names_ok(d, n),
            parents_ok(d, n, p@),
            done.len() == names.len(),
            order_ok(p@, done@, order@),
        decreases count_false(done@),
    {
        let mut first_open: Option<usize> = None;
        let mut t: usize = 0;
        while t < done.len()
            invariant
                t <= done.len(),
                first_open matches Some(x) ==> x < done.len() && !done@[x as int] && forall|s: int|
                    0 <= s < x ==> done@[s],
                first_open is None ==> forall|s: int| 0 <= s < t ==> done@[s],
            decreases done.len() - t,
        {
            if first_open.is_none() && !done[t] {
                first_open = Some(t);
            }
            t += 1;
        }
        let open = match first_open {
            None => {
                // every node is done: `order` is complete
                let mut sorted: Vec<String> = Vec::new();
                let mut a: usize = 0;
                while a < order.len()
                    invariant
                        a <= order.len(),
                        sorted.len() == a,
                        done.len() == names.len(),
                        order_ok(p@, done@, order@),
                        forall|x: int| 0 <= x < a ==> sorted@[x]@ == names@[order@[x] as int]@,
                    decreases order.len() - a,
                {
                    sorted.push(names[order[a]].clone());
                    a += 1;
                }
                proof {
                    assert forall|k: usize| k < n.len() implies #[trigger] order@.contains(k) by {
                        assert(done@[k as int]);
                    }
                    lemma_order_is_topo(d, n, p@, order@);
                    let o2 = order@.map_values(|x: usize| n[x as int]);
                    assert(names_view(sorted@) =~= o2);
                }
                return Ok(sorted);
            },
            Some(x) => x,
        };
        match find_ready(&p, &done) {
            None => {
                proof {
                    assert(n.contains(n[open as int]));
                    lemma_stuck_unsortable(d, n, p@, done@, open as int);
                    if is_acyclic(d) {
                        let o = choose|o: Seq<Seq<char>>| is_topo_order(d, o);
                        lemma_topo_is_sorted(d, o);
                        assert(o.contains(n[open as int]));
                    }
                    lemma_done_sortable(d, n, p@, done@, order@);
                    assert(n == node_order(d));
                    assert forall|j: int| 0 <= j < open implies sortable(d, n[j]) by {
                        assert(done@[j]);
                    }
                    let c = choose|c: int|
                        0 <= c < n.len() && !sortable(d, #[trigger] n[c]) && forall|j: int| 0 <= j < c ==> sortable(d, n[j]);
                    if c < open {
                        assert(done@[c]);
                    }
                    if open < c {
                        assert(sortable(d, n[open as int]));
                    }
                }
                let node = names[open].clone();
                return Err(node);
            },
            Some(k) => {
                proof {
                    lemma_count_false_update(done@, k as int);
                    lemma_order_push(p@, done@, order@, k as int);
                }
                order.push(k);
                done.set(k, true);
            },
        }
    }
}

/// Validate that `deps` forms a DAG (no cycles); `Err(stage)` names the
/// stage [`topo_sort`] reports: the first left unsorted.
pub fn validate_dag(deps: &Vec<(String, Vec<String>)>) -> (r: Result<(), String>)
    requires
        keys_distinct(deps_view(deps@)),
    ensures
        r is Ok <==> is_acyclic(deps_view(deps@)),
        r matches Err(node) ==> is_node(deps_view(deps@), node@) && !sortable(deps_view(deps@), node@)
            && first_unsorted(deps_view(deps@)) == Some(node@),
{
    match topo_sort(deps) {
        Ok(_) => Ok(()),
        Err(node) => Err(node),
    }
}

/// Whether every dependency of `stage` is among `terminal_success`. A stage
/// without an entry has nothing to wait for.
pub fn deps_satisfied(
    stage: &str,
    deps: &Vec<(String, Vec<String>)>,
    terminal_success: &Vec<String>,
) -> (b: bool)
    requires
        keys_distinct(deps_view(deps@)),
    ensures
        b == match deps_of(deps_view(deps@), stage@) {
            None => true,
            Some(parents) => forall|j: int|
                0 <= j < parents.len() ==> names_view(terminal_success@).contains(
                    #[trigger] parents[j],
                ),
        },
{
    let ghost d = deps_view(deps@);
    let target = String::from_str(stage);
    let mut i: usize = 0;
    while i < deps.len()
        invariant
            i <= deps.len(),
            d == deps_view(deps@),
            keys_distinct(d),
            target@ == stage@,
            forall|e: int| 0 <= e < i ==> d[e].0 != stage@,
        decreases deps.len() - i,
    {
        if deps[i].0 == target {
            proof {
                assert(d[i as int].0 == stage@);
                let c = choose|c: int| 0 <= c < d.len() && d[c].0 == stage@;
                assert(c == i as int);
            }
            let parents = &deps[i].1;
            let mut j: usize = 0;
            while j < parents.len()
                invariant
                    i < deps.len(),
                    d == deps_view(deps@),
                    keys_distinct(d),
                    d[i as int].0 == stage@,
                    parents@ == deps@[i as int].1@,
                    j <= parents.len(),
                    forall|t: int| 0 <= t < j ==> names_view(terminal_success@).contains(
                        #[trigger] parents@[t]@,
                    ),
                decreases parents.len() - j,
            {
                match find_name(terminal_success, &parents[j]) {
                    Some(x) => {
                        assert(names_view(terminal_success@)[x as int] == parents@[j as int]@);
                    },
                    None => {
                        proof {
                            let c = choose|c: int| 0 <= c < d.len() && d[c].0 == stage@;
                            assert(c == i as int);
                            assert(deps_of(d, stage@) == Some(d[i as int].1));
                            assert(d[i as int].1[j as int] == parents@[j as int]@);
                            assert(!names_view(terminal_success@).contains(parents@[j as int]@));
                            assert(!names_view(terminal_success@).contains(d[i as int].1[j as int]));
                            let ps = deps_of(d, stage@).unwrap();
                            assert(ps == d[i as int].1);
                            assert(!names_view(terminal_success@).contains(ps[j as int]));
                        }
                        return false;
                    },
                }
                j += 1;
            }
            proof {
                assert(d[i as int].0 == stage@);
                let c = choose|c: int| 0 <= c < d.len() && d[c].0 == stage@;
                assert(c == i as int);
                assert(deps_of(d, stage@) == Some(d[i as int].1));
                assert forall|t: int| 0 <= t < d[i as int].1.len() implies names_view(
                    terminal_success@,
                ).contains(#[trigger] d[i as int].1[t]) by {
                    assert(d[i as int].1[t] == parents@[t]@);
                }
            }
            return true;
        }
        i += 1;
    }
    true
}

} // verus!

//! The dependency structure behind the hierarchical layout: which nodes each
//! node's connections lead to, breaking the cycles among them, and placing
//! the nodes in levels. Nodes are numbered by their position in a list.
use vstd::prelude::*;
use crate::graph::{instance_key, node_instance_views, Graph, GraphView};
use crate::model::{connection_views, string_views, ConnectionView};
use crate::queries::hosted_connections;
use crate::seqs::{distinct_keys, first_index, keyed, lemma_first_index, lemma_first_index_is, lemma_keyed_dom, lemma_keyed_index};
use crate::text::str_eq;

verus! {

broadcast use vstd::seq_lib::group_seq_properties;

/// The lists of a vector of lists.
pub open spec fn adj(d: Seq<Vec<usize>>) -> Seq<Seq<usize>> {
    d.map_values(|v: Vec<usize>| v@)
}

/// Every listed node is a node of `g`.
pub open spec fn edges_within(g: Seq<Seq<usize>>) -> bool {
    forall|u: int, j: int| 0 <= u < g.len() && 0 <= j < g[u].len() ==> (#[trigger] g[u][j]) < g.len()
}

/// Along every edge of `g` the rank, a number below the number of nodes,
/// goes down.
pub open spec fn ranked(g: Seq<Seq<usize>>, rank: Seq<int>) -> bool {
    &&& rank.len() == g.len()
    &&& forall|x: int| 0 <= x < g.len() ==> 0 <= #[trigger] rank[x] < g.len()
    &&& forall|u: int, j: int| 0 <= u < g.len() && 0 <= j < g[u].len() ==> rank[#[trigger] g[u][j] as int] < rank[u]
}

/// `g` has no cycle: some ranking goes down along every edge.
pub open spec fn acyclic(g: Seq<Seq<usize>>) -> bool {
    exists|rank: Seq<int>| ranked(g, rank)
}

/// `p` is a walk along edges of `g`.
pub open spec fn is_path(g: Seq<Seq<usize>>, p: Seq<usize>) -> bool {
    &&& p.len() > 0
    &&& forall|i: int, j: int| 0 <= i && j == i + 1 && j < p.len() ==> #[trigger] g[p[i] as int].contains(#[trigger] p[j])
}

/// Node `b` can be reached from node `a` along edges of `g`.
pub open spec fn reaches(g: Seq<Seq<usize>>, a: usize, b: usize) -> bool {
    exists|p: Seq<usize>| #[trigger] is_path(g, p) && p[0] == a && p.last() == b
}

/// The number of `false` entries.
pub open spec fn unvisited_count(v: Seq<bool>) -> nat
    decreases v.len(),
{
    if v.len() == 0 {
        0
    } else {
        unvisited_count(v.drop_last()) + if v.last() {
            0nat
        } else {
            1nat
        }
    }
}

/// Marking entries `true` never adds `false` entries, and marking one more
/// removes one.
pub proof fn lemma_unvisited_count(a: Seq<bool>, b: Seq<bool>, x: int)
    requires
        a.len() == b.len(),
        forall|i: int| 0 <= i < a.len() && #[trigger] a[i] ==> b[i],
    ensures
        unvisited_count(b) <= unvisited_count(a),
        0 <= x < a.len() && !a[x] && b[x] ==> unvisited_count(b) < unvisited_count(a),
    decreases a.len(),
{
    if a.len() > 0 {
        let a1 = a.drop_last();
        let b1 = b.drop_last();
        assert forall|i: int| 0 <= i < a1.len() && #[trigger] a1[i] implies b1[i] by {
            assert(a[i]);
        }
        lemma_unvisited_count(a1, b1, x);
        assert(a.last() ==> b.last()) by {
            assert(a[a.len() - 1] ==> b[b.len() - 1]);
        }
    }
}

/// Marking one unmarked entry removes exactly one `false` entry.
pub proof fn lemma_unvisited_update(v: Seq<bool>, x: int)
    requires
        0 <= x < v.len(),
        !v[x],
    ensures
        unvisited_count(v.update(x, true)) + 1 == unvisited_count(v),
    decreases v.len(),
{
    let w = v.update(x, true);
    if x < v.len() - 1 {
        lemma_unvisited_update(v.drop_last(), x);
        assert(w.drop_last() =~= v.drop_last().update(x, true));
    } else {
        assert(w.drop_last() =~= v.drop_last());
    }
}

/// The number of `false` entries is the length when all are `false`, and
/// zero when none is.
pub proof fn lemma_unvisited_extremes(v: Seq<bool>)
    ensures
        (forall|i: int| 0 <= i < v.len() ==> !#[trigger] v[i]) ==> unvisited_count(v) == v.len(),
        (forall|i: int| 0 <= i < v.len() ==> #[trigger] v[i]) ==> unvisited_count(v) == 0,
    decreases v.len(),
{
    if v.len() > 0 {
        let t = v.drop_last();
        lemma_unvisited_extremes(t);
        if forall|i: int| 0 <= i < v.len() ==> !#[trigger] v[i] {
            assert forall|i: int| 0 <= i < t.len() implies !#[trigger] t[i] by {
                assert(!v[i]);
            }
            assert(!v[v.len() - 1]);
        }
        if forall|i: int| 0 <= i < v.len() ==> #[trigger] v[i] {
            assert forall|i: int| 0 <= i < t.len() implies #[trigger] t[i] by {
                assert(v[i]);
            }
            assert(v[v.len() - 1]);
        }
    }
}

/// A suffix of a walk is a walk from its first node to the walk's end.
pub proof fn lemma_path_suffix(g: Seq<Seq<usize>>, p: Seq<usize>, i: int)
    requires
        is_path(g, p),
        0 <= i < p.len(),
    ensures
        reaches(g, p[i], p.last()),
{
    let q = p.skip(i);
    assert forall|a: int, b: int| 0 <= a && b == a + 1 && b < q.len() implies #[trigger] g[q[a] as int].contains(#[trigger] q[b]) by {
        assert(q[a] == p[i + a]);
        assert(q[b] == p[i + b]);
        assert(g[p[i + a] as int].contains(p[i + a + 1]));
    }
    assert(is_path(g, q));
    assert(q[0] == p[i]);
    assert(q.last() == p.last());
}

/// Filtering by predicates that agree on the elements gives the same result.
pub proof fn lemma_filter_ext(s: Seq<usize>, p: spec_fn(usize) -> bool, q: spec_fn(usize) -> bool)
    requires
        forall|i: int| 0 <= i < s.len() ==> p(#[trigger] s[i]) == q(s[i]),
    ensures
        s.filter(p) == s.filter(q),
    decreases s.len(),
{
    reveal(Seq::filter);
    if s.len() > 0 {
        let t = s.drop_last();
        assert forall|i: int| 0 <= i < t.len() implies p(#[trigger] t[i]) == q(t[i]) by {
            assert(t[i] == s[i]);
        }
        lemma_filter_ext(t, p, q);
        assert(p(s[s.len() - 1]) == q(s[s.len() - 1]));
    }
}

/// An element of a filtered sequence is an element of the sequence that
/// satisfies the predicate.
pub proof fn lemma_filter_member(s: Seq<usize>, p: spec_fn(usize) -> bool, q: int)
    requires
        0 <= q < s.filter(p).len(),
    ensures
        s.contains(s.filter(p)[q]),
        p(s.filter(p)[q]),
{
    let e = s.filter(p)[q];
    assert(s.filter(p).contains(e));
    s.lemma_filter_contains_rev(p, e);
    s.lemma_filter_pred(p, q);
}

/// Filtering one more element of a prefix.
pub proof fn lemma_filter_take_step(s: Seq<usize>, p: spec_fn(usize) -> bool, j: int)
    requires
        0 <= j < s.len(),
    ensures
        s.take(j + 1).filter(p) == if p(s[j]) {
            s.take(j).filter(p).push(s[j])
        } else {
            s.take(j).filter(p)
        },
{
    reveal(Seq::filter);
    assert(s.take(j + 1).drop_last() =~= s.take(j));
    assert(s.take(j + 1).last() == s[j]);
}

/// How often `x` occurs in `s`.
pub open spec fn occurrences<T>(s: Seq<T>, x: T) -> nat
    decreases s.len(),
{
    if s.len() == 0 {
        0
    } else {
        occurrences(s.drop_last(), x) + if s.last() == x {
            1nat
        } else {
            0nat
        }
    }
}

proof fn lemma_occurrences_push<T>(s: Seq<T>, y: T, x: T)
    ensures
        occurrences(s.push(y), x) == occurrences(s, x) + if y == x {
            1nat
        } else {
            0nat
        },
{
    assert(s.push(y).drop_last() =~= s);
}

proof fn lemma_occurrences_take<T>(s: Seq<T>, j: int, x: T)
    requires
        0 <= j < s.len(),
    ensures
        occurrences(s.take(j + 1), x) == occurrences(s.take(j), x) + if s[j] == x {
            1nat
        } else {
            0nat
        },
{
    assert(s.take(j + 1).drop_last() =~= s.take(j));
}

/// Something occurs in `s` exactly when `s` holds it.
proof fn lemma_occurrences_contains<T>(s: Seq<T>, x: T)
    ensures
        occurrences(s, x) > 0 <==> s.contains(x),
    decreases s.len(),
{
    if s.len() > 0 {
        lemma_occurrences_contains(s.drop_last(), x);
        if s.drop_last().contains(x) {
            let i = choose|i: int| 0 <= i < s.drop_last().len() && s.drop_last()[i] == x;
            assert(s[i] == x);
        }
        if s.contains(x) && s.last() != x {
            let i = choose|i: int| 0 <= i < s.len() && s[i] == x;
            assert(i != s.len() - 1);
            assert(s.drop_last()[i] == x);
        }
        if s.last() == x {
            assert(s[s.len() - 1] == x);
        }
    }
}

/// Every pair of `r` that starts at `x` occurs in `r` as often as its
/// target occurs in the list of `x` in `d`.
pub open spec fn pairs_counted(d: Seq<Seq<usize>>, r: Seq<(usize, usize)>, x: usize) -> bool {
    forall|t: usize| #[trigger] r.contains((x, t)) ==> occurrences(r, (x, t)) == occurrences(d[x as int], t)
}

/// Counts carry over to a list that holds each pair from `x` as often.
proof fn lemma_counted_transfer(d: Seq<Seq<usize>>, r1: Seq<(usize, usize)>, r2: Seq<(usize, usize)>, x: usize)
    requires
        pairs_counted(d, r1, x),
        forall|t: usize| #[trigger] occurrences(r2, (x, t)) == occurrences(r1, (x, t)),
    ensures
        pairs_counted(d, r2, x),
{
    assert forall|t: usize| #[trigger] r2.contains((x, t)) implies occurrences(r2, (x, t)) == occurrences(d[x as int], t) by {
        lemma_occurrences_contains(r2, (x, t));
        lemma_occurrences_contains(r1, (x, t));
        assert(occurrences(r2, (x, t)) == occurrences(r1, (x, t)));
    }
}

/// Node `x` is done: visited and off the stack.
pub open spec fn done(v: Seq<bool>, s: Seq<bool>, x: int) -> bool {
    v[x] && !s[x]
}

/// A finished node keeps exactly the edges of `d` that were not removed,
/// and each of them leads to a node that finished before it.
pub open spec fn finished_ok(
    d: Seq<Seq<usize>>,
    c: Seq<Seq<usize>>,
    v: Seq<bool>,
    s: Seq<bool>,
    f: Seq<int>,
    k: int,
    r: Seq<(usize, usize)>,
    x: usize,
) -> bool {
    &&& 0 <= f[x as int] < k
    &&& c[x as int] == d[x as int].filter(|t: usize| !r.contains((x, t)))
    &&& forall|j: int| 0 <= j < c[x as int].len() ==> done(v, s, #[trigger] c[x as int][j] as int) && f[c[x as int][j] as int] < f[x as int]
}

/// A removed edge `(a, b)` is an edge of `d` from a visited node, and `b`
/// reaches `a`: the edge closes a cycle.
pub open spec fn removal_ok(d: Seq<Seq<usize>>, v: Seq<bool>, e: (usize, usize)) -> bool {
    &&& (e.0 as int) < d.len()
    &&& v[e.0 as int]
    &&& d[e.0 as int].contains(e.1)
    &&& reaches(d, e.1, e.0)
}

/// The state of the depth-first search: `d` the lists as given, `c` the
/// current ones, `v` the visited nodes, `s` the nodes on the stack `path`,
/// `f` the finishing times below the clock `k`, and `r` the removed edges.
pub open spec fn dfs_inv(
    d: Seq<Seq<usize>>,
    c: Seq<Seq<usize>>,
    v: Seq<bool>,
    s: Seq<bool>,
    path: Seq<usize>,
    f: Seq<int>,
    k: int,
    r: Seq<(usize, usize)>,
) -> bool {
    &&& edges_within(d)
    &&& edges_within(c)
    &&& 0 <= k
    &&& c.len() == d.len() && v.len() == d.len() && s.len() == d.len() && f.len() == d.len()
    &&& forall|x: usize| (x as int) < d.len() ==> (#[trigger] s[x as int] <==> path.contains(x))
    &&& forall|i: int| 0 <= i < path.len() ==> (#[trigger] path[i]) < d.len()
    &&& (path.len() > 0 ==> is_path(d, path))
    &&& forall|x: int| 0 <= x < d.len() && #[trigger] s[x] ==> v[x]
    &&& forall|x: int| 0 <= x < d.len() && !#[trigger] v[x] ==> c[x] == d[x]
    &&& forall|x: usize| (x as int) < d.len() && #[trigger] done(v, s, x as int) ==> finished_ok(d, c, v, s, f, k, r, x)
    &&& forall|i: int| 0 <= i < r.len() ==> removal_ok(d, v, #[trigger] r[i])
}

/// Visits node `node` and everything reachable from it that is not yet
/// visited, removing each edge that leads back to a node on the stack and
/// recording it.
fn dfs_cycle_detection(
    node: usize,
    deps: &mut Vec<Vec<usize>>,
    visited: &mut Vec<bool>,
    stack: &mut Vec<bool>,
    removed: &mut Vec<(usize, usize)>,
    Ghost(d): Ghost<Seq<Seq<usize>>>,
    Ghost(path): Ghost<Seq<usize>>,
    fin: &mut Ghost<Seq<int>>,
    clock: &mut Ghost<int>,
)
    requires
        dfs_inv(d, adj(old(deps)@), old(visited)@, old(stack)@, path, old(fin)@, old(clock)@, old(removed)@),
        node < d.len(),
        !old(visited)@[node as int],
        path.len() > 0 ==> d[path.last() as int].contains(node),
    ensures
        dfs_inv(d, adj(final(deps)@), final(visited)@, final(stack)@, path, final(fin)@, final(clock)@, final(removed)@),
        final(visited)@[node as int],
        final(stack)@ == old(stack)@,
        final(clock)@ >= old(clock)@,
        final(clock)@ - old(clock)@ == unvisited_count(old(visited)@) - unvisited_count(final(visited)@),
        forall|x: int|
            0 <= x < d.len() && #[trigger] old(visited)@[x] ==> final(visited)@[x] && adj(final(deps)@)[x] == adj(
                old(deps)@,
            )[x] && final(fin)@[x] == old(fin)@[x],
        final(removed)@.len() >= old(removed)@.len(),
        final(removed)@.take(old(removed)@.len() as int) == old(removed)@,
        forall|i: int|
            old(removed)@.len() <= i < final(removed)@.len() ==> !old(visited)@[(#[trigger] final(removed)@[i]).0 as int],
        forall|p: (usize, usize)|
            (p.0 as int) < d.len() && old(visited)@[p.0 as int] ==> #[trigger] occurrences(final(removed)@, p) == occurrences(
                old(removed)@,
                p,
            ),
        forall|x: usize|
            (x as int) < d.len() && !old(visited)@[x as int] && #[trigger] final(visited)@[x as int] ==> pairs_counted(
                d,
                final(removed)@,
                x,
            ),
    decreases unvisited_count(old(visited)@),
{
    let ghost v0 = visited@;
    let ghost r0 = removed@;
    let ghost c0 = adj(deps@);
    let ghost n = d.len();
    visited.set(node, true);
    stack.set(node, true);
    let ghost pu = path.push(node);
    let ghost se = stack@;
    proof {
        assert forall|x: usize| (x as int) < n implies (#[trigger] stack@[x as int] <==> pu.contains(x)) by {
            if x == node {
                assert(pu[pu.len() - 1] == node);
            } else {
                assert(stack@[x as int] == old(stack)@[x as int]);
                assert(old(stack)@[x as int] <==> path.contains(x));
                if path.contains(x) {
                    let i = choose|i: int| 0 <= i < path.len() && path[i] == x;
                    assert(pu[i] == path[i]);
                }
                if pu.contains(x) {
                    let i = choose|i: int| 0 <= i < pu.len() && pu[i] == x;
                    if i < path.len() {
                        assert(path[i] == pu[i]);
                        assert(path.contains(x));
                    } else {
                        assert(pu[i] == node);
                    }
                }
            }
        }
        assert forall|a: int, b: int| 0 <= a && b == a + 1 && b < pu.len() implies #[trigger] d[pu[a] as int].contains(
            #[trigger] pu[b],
        ) by {
            if b < path.len() {
                assert(pu[a] == path[a] && pu[b] == path[b]);
            } else {
                assert(pu[a] == path.last());
            }
        }
        assert forall|x: usize| (x as int) < n && #[trigger] done(visited@, stack@, x as int) implies finished_ok(
            d,
            adj(deps@),
            visited@,
            stack@,
            fin@,
            clock@,
            removed@,
            x,
        ) by {
            assert(x != node);
            assert(done(v0, old(stack)@, x as int));
            assert(finished_ok(d, adj(deps@), v0, old(stack)@, fin@, clock@, removed@, x));
            let cx = adj(deps@)[x as int];
            assert forall|j: int| 0 <= j < cx.len() implies done(visited@, stack@, #[trigger] cx[j] as int) && fin@[
                cx[j] as int] < fin@[x as int] by {
                let y = cx[j] as int;
                assert(done(v0, old(stack)@, y));
                assert(y != node);
                assert(visited@[y] && !stack@[y]);
            }
        }
        assert forall|i: int| 0 <= i < removed@.len() implies removal_ok(d, visited@, #[trigger] removed@[i]) by {
            assert(removal_ok(d, v0, removed@[i]));
        }
        assert(adj(deps@)[node as int] == d[node as int]);
        lemma_unvisited_count(v0, visited@, node as int);
        lemma_unvisited_update(v0, node as int);
        assert(visited@ == v0.update(node as int, true));
    }
    let targets = deps[node].clone();
    proof {
        assert(targets@ == d[node as int]);
    }
    let ghost anc = |t: usize| (t as int) < n && se[t as int];
    let m = targets.len();
    let mut j: usize = 0;
    proof {
        assert(d[node as int].take(0).filter(|t: usize| !anc(t)) =~= Seq::<usize>::empty()) by {
            reveal(Seq::filter);
        }
        assert(d[node as int].skip(0) =~= d[node as int]);
        assert(adj(deps@)[node as int] =~= d[node as int].take(0).filter(|t: usize| !anc(t)) + d[node as int].skip(0));
        assert(removed@.take(r0.len() as int) =~= r0);
        assert forall|t: usize| #[trigger] occurrences(removed@, (node, t)) == if anc(t) {
            occurrences(d[node as int].take(0), t)
        } else {
            0
        } by {
            assert(d[node as int].take(0) =~= Seq::<usize>::empty());
            lemma_occurrences_contains(r0, (node, t));
            if r0.contains((node, t)) {
                let i = choose|i: int| 0 <= i < r0.len() && r0[i] == (node, t);
                assert(removal_ok(d, v0, r0[i]));
            }
        }
    }
    while j < m
        invariant
            n == d.len(),
            node < n,
            m == targets@.len(),
            targets@ == d[node as int],
            j <= m,
            pu == path.push(node),
            anc == (|t: usize| (t as int) < n && se[t as int]),
            dfs_inv(d, adj(deps@), visited@, stack@, pu, fin@, clock@, removed@),
            stack@ == se,
            se[node as int],
            visited@[node as int],
            clock@ >= old(clock)@,
            adj(deps@)[node as int] == d[node as int].take(j as int).filter(|t: usize| !anc(t)) + d[node as int].skip(j as int),
            forall|q: int| 0 <= q < j && !anc(#[trigger] d[node as int][q]) ==> done(visited@, stack@, d[node as int][q] as int) && fin@[d[node as int][q] as int] < clock@,
            forall|t: usize| #[trigger] removed@.contains((node, t)) <==> (d[node as int].take(j as int).contains(t) && anc(t)),
            forall|x: int| 0 <= x < n && #[trigger] v0[x] ==> visited@[x] && adj(deps@)[x] == c0[x] && fin@[x] == old(fin)@[x],
            removed@.len() >= r0.len(),
            removed@.take(r0.len() as int) == r0,
            forall|i: int| r0.len() <= i < removed@.len() ==> !v0[(#[trigger] removed@[i]).0 as int],
            unvisited_count(visited@) < unvisited_count(v0),
            clock@ - old(clock)@ == unvisited_count(v0) - 1 - unvisited_count(visited@),
            v0 == old(visited)@,
            !v0[node as int],
            v0.len() == n,
            forall|i: int| 0 <= i < n && #[trigger] v0[i] ==> visited@[i],
            visited@.len() == n,
            r0 == old(removed)@,
            forall|p: (usize, usize)| (p.0 as int) < n && v0[p.0 as int] ==> #[trigger] occurrences(removed@, p) == occurrences(r0, p),
            forall|x: usize| (x as int) < n && x != node && !v0[x as int] && #[trigger] visited@[x as int] ==> pairs_counted(d, removed@, x),
            forall|t: usize| #[trigger] occurrences(removed@, (node, t)) == if anc(t) {
                occurrences(d[node as int].take(j as int), t)
            } else {
                0
            },
        decreases m - j,
    {
        let t = targets[j];
        proof {
            assert(d[node as int][j as int] == t);
            assert(t < n);
            lemma_filter_take_step(d[node as int], |t: usize| !anc(t), j as int);
            assert(d[node as int].skip(j as int) =~= seq![t] + d[node as int].skip(j + 1));
            assert(d[node as int].take(j + 1) =~= d[node as int].take(j as int).push(t));
        }
        let ghost before_deps = adj(deps@);
        let ghost before_removed = removed@;
        let ghost before_visited = visited@;
        let ghost before_fin = fin@;
        if !visited[t] {
            proof {
                assert(d[node as int].contains(t)) by {
                    assert(d[node as int][j as int] == t);
                }
                assert(pu.last() == node);
                assert(!se[t as int]);
            }
            dfs_cycle_detection(t, deps, visited, stack, removed, Ghost(d), Ghost(pu), fin, clock);
            proof {
                assert(done(visited@, stack@, t as int));
                assert forall|t2: usize| #[trigger] removed@.contains((node, t2)) <==> (d[node as int].take(j + 1).contains(t2) && anc(t2)) by {
                    if removed@.contains((node, t2)) {
                        let i = choose|i: int| 0 <= i < removed@.len() && removed@[i] == (node, t2);
                        if i >= before_removed.len() {
                            assert(!before_visited[node as int]);
                        } else {
                            assert(removed@.take(before_removed.len() as int)[i] == before_removed[i]);
                            assert(before_removed.contains((node, t2)));
                        }
                    }
                    if before_removed.contains((node, t2)) {
                        let i = choose|i: int| 0 <= i < before_removed.len() && before_removed[i] == (node, t2);
                        assert(removed@.take(before_removed.len() as int)[i] == before_removed[i]);
                        assert(removed@[i] == (node, t2));
                    }
                }
                assert forall|q: int| 0 <= q < j + 1 && !anc(#[trigger] d[node as int][q]) implies done(visited@, stack@, d[node as int][q] as int) && fin@[d[node as int][q] as int] < clock@ by {
                    if q < j {
                        let e = d[node as int][q] as int;
                        assert(before_visited[e]);
                    }
                }
                assert(removed@.take(r0.len() as int) =~= r0) by {
                    assert forall|i: int| 0 <= i < r0.len() implies removed@[i] == r0[i] by {
                        assert(removed@.take(before_removed.len() as int)[i] == before_removed[i]);
                        assert(before_removed.take(r0.len() as int)[i] == r0[i]);
                    }
                }
                assert forall|i: int| r0.len() <= i < removed@.len() implies !v0[(#[trigger] removed@[i]).0 as int] by {
                    if i < before_removed.len() {
                        assert(removed@.take(before_removed.len() as int)[i] == before_removed[i]);
                    }
                }
                lemma_unvisited_count(v0, visited@, node as int);
                assert(!anc(t));
                assert forall|t2: usize| #[trigger] occurrences(removed@, (node, t2)) == if anc(t2) {
                    occurrences(d[node as int].take(j + 1), t2)
                } else {
                    0
                } by {
                    assert(occurrences(removed@, (node, t2)) == occurrences(before_removed, (node, t2)));
                    lemma_occurrences_take(d[node as int], j as int, t2);
                }
                assert forall|p: (usize, usize)| (p.0 as int) < n && v0[p.0 as int] implies #[trigger] occurrences(removed@, p) == occurrences(r0, p) by {
                    assert(before_visited[p.0 as int]);
                    assert(occurrences(removed@, p) == occurrences(before_removed, p));
                }
                assert forall|x: usize| (x as int) < n && x != node && !v0[x as int] && #[trigger] visited@[x as int] implies pairs_counted(d, removed@, x) by {
                    if before_visited[x as int] {
                        assert forall|t2: usize| #[trigger] occurrences(removed@, (x, t2)) == occurrences(before_removed, (x, t2)) by {
                            assert(occurrences(removed@, (x, t2)) == occurrences(before_removed, (x, t2)));
                        }
                        lemma_counted_transfer(d, before_removed, removed@, x);
                    }
                }
            }
        } else if stack[t] {
            let mut list = deps[node].clone();
            let ll = list.len();
            let ghost pre = d[node as int].take(j as int).filter(|t: usize| !anc(t));
            let mut pos: usize = 0;
            proof {
                assert(list@ == pre + d[node as int].skip(j as int));
                assert(list@[pre.len() as int] == t);
                assert forall|i: int| 0 <= i < pre.len() implies pre[i] != t by {
                    reveal(Seq::filter);
                    d[node as int].take(j as int).lemma_filter_pred(|t: usize| !anc(t), i);
                }
            }
            while list[pos] != t
                invariant
                    list@ == pre + d[node as int].skip(j as int),
                    list@[pre.len() as int] == t,
                    forall|i: int| 0 <= i < pre.len() ==> pre[i] != t,
                    pos <= pre.len(),
                    pre.len() < list@.len(),
                    list@.len() == ll,
                decreases pre.len() - pos,
            {
                proof {
                    assert(pos != pre.len());
                }
                pos = pos + 1;
            }
            list.remove(pos);
            deps.set(node, list);
            removed.push((node, t));
            proof {
                assert(anc(t));
                assert forall|t2: usize| #[trigger] occurrences(removed@, (node, t2)) == if anc(t2) {
                    occurrences(d[node as int].take(j + 1), t2)
                } else {
                    0
                } by {
                    lemma_occurrences_push(before_removed, (node, t), (node, t2));
                    lemma_occurrences_take(d[node as int], j as int, t2);
                }
                assert forall|p: (usize, usize)| (p.0 as int) < n && v0[p.0 as int] implies #[trigger] occurrences(removed@, p) == occurrences(r0, p) by {
                    lemma_occurrences_push(before_removed, (node, t), p);
                }
                assert forall|x: usize| (x as int) < n && x != node && !v0[x as int] && #[trigger] visited@[x as int] implies pairs_counted(d, removed@, x) by {
                    assert forall|t2: usize| #[trigger] occurrences(removed@, (x, t2)) == occurrences(before_removed, (x, t2)) by {
                        lemma_occurrences_push(before_removed, (node, t), (x, t2));
                    }
                    lemma_counted_transfer(d, before_removed, removed@, x);
                }
                assert(pos == pre.len());
                assert(adj(deps@)[node as int] =~= pre + d[node as int].skip(j + 1));
                assert forall|u: int, q: int| 0 <= u < n && 0 <= q < adj(deps@)[u].len() implies (#[trigger] adj(deps@)[u][q]) < n by {
                    if u == node {
                        let cu = adj(deps@)[u];
                        if q < pre.len() {
                            lemma_filter_member(d[node as int].take(j as int), |t: usize| !anc(t), q);
                            assert(d[node as int].take(j as int).contains(pre[q]));
                            let z = choose|z: int| 0 <= z < j && d[node as int].take(j as int)[z] == pre[q];
                            assert(d[node as int][z] == pre[q]);
                        } else {
                            assert(cu[q] == d[node as int][q - pre.len() + j + 1]);
                        }
                    } else {
                        assert(adj(deps@)[u] == before_deps[u]);
                    }
                }
                assert forall|x: int| 0 <= x < n && x != node implies adj(deps@)[x] == before_deps[x] by {}
                assert(se[t as int]);
                assert(pu.contains(t));
                let i = choose|i: int| 0 <= i < pu.len() && pu[i] == t;
                lemma_path_suffix(d, pu, i);
                assert(pu.last() == node);
                assert(d[node as int].contains(t)) by {
                    assert(d[node as int][j as int] == t);
                }
                assert(removal_ok(d, visited@, (node, t)));
                assert forall|i2: int| 0 <= i2 < removed@.len() implies removal_ok(d, visited@, #[trigger] removed@[i2]) by {
                    if i2 < before_removed.len() {
                        assert(removed@[i2] == before_removed[i2]);
                    }
                }
                assert forall|t2: usize| #[trigger] removed@.contains((node, t2)) <==> (d[node as int].take(j + 1).contains(t2) && anc(t2)) by {
                    if removed@.contains((node, t2)) && t2 != t {
                        let i2 = choose|i2: int| 0 <= i2 < removed@.len() && removed@[i2] == (node, t2);
                        assert(before_removed[i2] == (node, t2));
                        assert(before_removed.contains((node, t2)));
                    }
                    if before_removed.contains((node, t2)) {
                        let i2 = choose|i2: int| 0 <= i2 < before_removed.len() && before_removed[i2] == (node, t2);
                        assert(removed@[i2] == (node, t2));
                    }
                    if t2 == t {
                        assert(removed@[removed@.len() - 1] == (node, t));
                    }
                }
                assert forall|x: usize| (x as int) < n && #[trigger] done(visited@, stack@, x as int) implies finished_ok(
                    d,
                    adj(deps@),
                    visited@,
                    stack@,
                    fin@,
                    clock@,
                    removed@,
                    x,
                ) by {
                    assert(x != node);
                    assert(finished_ok(d, before_deps, visited@, stack@, fin@, clock@, before_removed, x));
                    lemma_filter_ext(
                        d[x as int],
                        |t2: usize| !before_removed.contains((x, t2)),
                        |t2: usize| !removed@.contains((x, t2)),
                    );
                }
                assert(removed@.take(r0.len() as int) =~= r0) by {
                    assert forall|i2: int| 0 <= i2 < r0.len() implies removed@[i2] == r0[i2] by {
                        assert(before_removed.take(r0.len() as int)[i2] == r0[i2]);
                    }
                }
                assert forall|i2: int| r0.len() <= i2 < removed@.len() implies !v0[(#[trigger] removed@[i2]).0 as int] by {
                    if i2 < before_removed.len() {
                        assert(removed@[i2] == before_removed[i2]);
                    } else {
                        assert(removed@[i2] == (node, t));
                    }
                }
                assert forall|x: int| 0 <= x < n && #[trigger] v0[x] implies visited@[x] && adj(deps@)[x] == c0[x] && fin@[x] == old(fin)@[x] by {
                    assert(x != node);
                    assert(before_visited[x]);
                }
            }
        } else {
            proof {
                assert(!anc(t));
                assert forall|t2: usize| #[trigger] occurrences(removed@, (node, t2)) == if anc(t2) {
                    occurrences(d[node as int].take(j + 1), t2)
                } else {
                    0
                } by {
                    lemma_occurrences_take(d[node as int], j as int, t2);
                }
                assert(done(visited@, stack@, t as int));
                assert(adj(deps@)[node as int] =~= d[node as int].take(j + 1).filter(|t: usize| !anc(t)) + d[node as int].skip(j + 1));
                assert forall|t2: usize| #[trigger] removed@.contains((node, t2)) <==> (d[node as int].take(j + 1).contains(t2) && anc(t2)) by {
                    if d[node as int].take(j + 1).contains(t2) && anc(t2) && t2 == t {
                        assert(false);
                    }
                    if d[node as int].take(j as int).contains(t2) {
                        let q = choose|q: int| 0 <= q < j && #[trigger] d[node as int].take(j as int)[q] == t2;
                        assert(d[node as int].take(j + 1)[q] == t2);
                    }
                    if d[node as int].take(j + 1).contains(t2) && t2 != t {
                        let q = choose|q: int| 0 <= q < j + 1 && #[trigger] d[node as int].take(j + 1)[q] == t2;
                        assert(d[node as int].take(j as int)[q] == t2);
                    }
                }
            }
        }
        j = j + 1;
    }
    proof {
        assert(d[node as int].take(m as int) =~= d[node as int]);
        assert(d[node as int].skip(m as int) =~= Seq::<usize>::empty());
        assert forall|t: usize| #[trigger] removed@.contains((node, t)) implies occurrences(removed@, (node, t)) == occurrences(d[node as int], t) by {
            lemma_occurrences_contains(removed@, (node, t));
            assert(occurrences(removed@, (node, t)) == if anc(t) {
                occurrences(d[node as int].take(m as int), t)
            } else {
                0
            });
        }
        assert(pairs_counted(d, removed@, node));
        assert(adj(deps@)[node as int] =~= d[node as int].filter(|t: usize| !anc(t)));
        lemma_filter_ext(
            d[node as int],
            |t: usize| !anc(t),
            |t: usize| !removed@.contains((node, t)),
        );
    }
    let ghost k = clock@;
    let ghost fin_old = fin@;
    proof {
        fin@ = fin@.update(node as int, k);
        clock@ = k + 1;
    }
    stack.set(node, false);
    proof {
        let cu = adj(deps@)[node as int];
        assert forall|q: int| 0 <= q < cu.len() implies done(visited@, stack@, #[trigger] cu[q] as int) && fin@[cu[q] as int] < fin@[node as int] by {
            lemma_filter_member(d[node as int], |t: usize| !anc(t), q);
            let e = cu[q];
            let qq = choose|qq: int| 0 <= qq < d[node as int].len() && d[node as int][qq] == e;
            assert(!anc(d[node as int][qq]));
            assert(d[node as int].take(m as int)[qq] == e);
            assert(e != node);
        }
        assert forall|x: usize| (x as int) < n implies (#[trigger] stack@[x as int] <==> path.contains(x)) by {
            if x != node {
                assert(se[x as int] <==> pu.contains(x));
                if pu.contains(x) {
                    let i = choose|i: int| 0 <= i < pu.len() && pu[i] == x;
                    assert(i < path.len());
                    assert(path[i] == x);
                }
                if path.contains(x) {
                    let i = choose|i: int| 0 <= i < path.len() && path[i] == x;
                    assert(pu[i] == x);
                }
            } else {
                if path.contains(x) {
                    let i = choose|i: int| 0 <= i < path.len() && path[i] == x;
                    assert(pu[i] == x);
                    assert(old(stack)@[x as int]);
                }
            }
        }
        assert(stack@ =~= old(stack)@) by {
            assert forall|x: int| 0 <= x < n implies stack@[x] == old(stack)@[x] by {
                if x != node {
                    assert(se[x] == old(stack)@[x]);
                }
            }
        }
        assert forall|x: usize| (x as int) < n && #[trigger] done(visited@, stack@, x as int) implies finished_ok(
            d,
            adj(deps@),
            visited@,
            stack@,
            fin@,
            clock@,
            removed@,
            x,
        ) by {
            if x != node {
                assert(done(visited@, se, x as int));
                assert(finished_ok(d, adj(deps@), visited@, se, fin_old, k, removed@, x));
                let cx = adj(deps@)[x as int];
                assert forall|q: int| 0 <= q < cx.len() implies done(visited@, stack@, #[trigger] cx[q] as int) && fin@[cx[q] as int] < fin@[x as int] by {
                    assert(done(visited@, se, cx[q] as int));
                    assert(cx[q] != node);
                }
            } else {
                assert(fin@[node as int] == k);
            }
        }
        assert forall|x: int| 0 <= x < n && #[trigger] v0[x] implies visited@[x] && adj(deps@)[x] == c0[x] && fin@[x] == old(fin)@[x] by {
            assert(x != node);
        }
    }
}

/// Removes, by a depth-first search from each node in turn, every edge that
/// leads back to a node on the search's stack, and returns the removed
/// edges, one pair for each list entry removed (so an edge listed twice is
/// returned twice). What remains has no cycle, and every removed edge closes
/// a cycle of the lists as given.
pub fn break_cycles(deps: &mut Vec<Vec<usize>>) -> (removed: Vec<(usize, usize)>)
    requires
        edges_within(adj(old(deps)@)),
    ensures
        final(deps)@.len() == old(deps)@.len(),
        forall|u: usize|
            (u as int) < old(deps)@.len() ==> #[trigger] adj(final(deps)@)[u as int] == adj(old(deps)@)[u as int].filter(
                |t: usize| !removed@.contains((u, t)),
            ),
        forall|i: int|
            0 <= i < removed@.len() ==> {
                let e = #[trigger] removed@[i];
                &&& (e.0 as int) < old(deps)@.len()
                &&& adj(old(deps)@)[e.0 as int].contains(e.1)
                &&& reaches(adj(old(deps)@), e.1, e.0)
            },
        forall|u: usize, t: usize|
            (u as int) < old(deps)@.len() && #[trigger] removed@.contains((u, t)) ==> occurrences(removed@, (u, t))
                == occurrences(adj(old(deps)@)[u as int], t),
        acyclic(adj(final(deps)@)),
{
    let ghost d = adj(deps@);
    let n = deps.len();
    let mut visited: Vec<bool> = Vec::new();
    let mut stack: Vec<bool> = Vec::new();
    let mut k: usize = 0;
    while k < n
        invariant
            k <= n,
            visited@.len() == k,
            stack@.len() == k,
            forall|x: int| 0 <= x < k ==> !(#[trigger] visited@[x]),
            forall|x: int| 0 <= x < k ==> !(#[trigger] stack@[x]),
        decreases n - k,
    {
        visited.push(false);
        stack.push(false);
        k = k + 1;
    }
    let mut removed: Vec<(usize, usize)> = Vec::new();
    let mut fin: Ghost<Seq<int>> = Ghost(Seq::new(n as nat, |i: int| 0int));
    let mut clock: Ghost<int> = Ghost(0int);
    let mut i: usize = 0;
    proof {
        assert(adj(deps@) == d);
        lemma_unvisited_extremes(visited@);
        assert forall|x: usize| (x as int) < n implies (#[trigger] stack@[x as int] <==> Seq::<usize>::empty().contains(x)) by {
            assert(!stack@[x as int]);
            assert(!Seq::<usize>::empty().contains(x));
        }
    }
    while i < n
        invariant
            n == d.len(),
            i <= n,
            dfs_inv(d, adj(deps@), visited@, stack@, Seq::empty(), fin@, clock@, removed@),
            forall|x: int| 0 <= x < i ==> #[trigger] visited@[x],
            forall|x: int| 0 <= x < n ==> !#[trigger] stack@[x],
            d == adj(old(deps)@),
            clock@ + unvisited_count(visited@) == n,
            visited@.len() == n,
            forall|x: usize| (x as int) < n && #[trigger] visited@[x as int] ==> pairs_counted(d, removed@, x),
        decreases n - i,
    {
        let ghost vb = visited@;
        let ghost rb = removed@;
        if !visited[i] {
            dfs_cycle_detection(i, deps, &mut visited, &mut stack, &mut removed, Ghost(d), Ghost(Seq::empty()), &mut fin, &mut clock);
            proof {
                assert forall|x: usize| (x as int) < n && #[trigger] visited@[x as int] implies pairs_counted(d, removed@, x) by {
                    if vb[x as int] {
                        assert forall|t2: usize| #[trigger] occurrences(removed@, (x, t2)) == occurrences(rb, (x, t2)) by {
                            assert(occurrences(removed@, (x, t2)) == occurrences(rb, (x, t2)));
                        }
                        lemma_counted_transfer(d, rb, removed@, x);
                    }
                }
                assert forall|x: int| 0 <= x < i + 1 implies #[trigger] visited@[x] by {
                    if x < i {
                        assert(vb[x]);
                    }
                }
            }
        }
        i = i + 1;
    }
    proof {
        let c = adj(deps@);
        lemma_unvisited_extremes(visited@);
        assert(clock@ == n);
        assert forall|x: int| 0 <= x < c.len() implies 0 <= #[trigger] fin@[x] < c.len() by {
            let xx = x as usize;
            assert(done(visited@, stack@, xx as int));
            assert(finished_ok(d, c, visited@, stack@, fin@, clock@, removed@, xx));
        }
        assert forall|u: int, j: int| 0 <= u < c.len() && 0 <= j < c[u].len() implies fin@[#[trigger] c[u][j] as int] < fin@[u] by {
            let uu = u as usize;
            assert(uu as int == u);
            assert(done(visited@, stack@, uu as int));
            assert(finished_ok(d, c, visited@, stack@, fin@, clock@, removed@, uu));
        }
        assert(ranked(c, fin@));
        assert forall|u: usize| (u as int) < d.len() implies #[trigger] adj(deps@)[u as int] == d[u as int].filter(
            |t: usize| !removed@.contains((u, t)),
        ) by {
            assert(done(visited@, stack@, u as int));
        }
        assert forall|u: usize, t: usize| (u as int) < d.len() && #[trigger] removed@.contains((u, t)) implies occurrences(removed@, (u, t))
            == occurrences(d[u as int], t) by {
            assert(visited@[u as int]);
            assert(pairs_counted(d, removed@, u));
        }
        assert forall|i2: int| 0 <= i2 < removed@.len() implies {
            let e = #[trigger] removed@[i2];
            &&& (e.0 as int) < d.len()
            &&& d[e.0 as int].contains(e.1)
            &&& reaches(d, e.1, e.0)
        } by {
            assert(removal_ok(d, visited@, removed@[i2]));
        }
    }
    removed
}

/// The rank of `x`, or 0 outside the ranking.
pub open spec fn rank_of(rank: Seq<int>, x: int) -> nat {
    if 0 <= x < rank.len() && rank[x] >= 0 {
        rank[x] as nat
    } else {
        0
    }
}

/// The number of walks that start at `x` (the one-node walk included),
/// counted along the edges that go down in rank.
pub open spec fn paths_from(g: Seq<Seq<usize>>, rank: Seq<int>, x: int) -> nat
    decreases rank_of(rank, x), (if 0 <= x < g.len() {
        g[x].len()
    } else {
        0
    }) + 1,
{
    1 + paths_through(g, rank, if 0 <= x < g.len() {
        g[x]
    } else {
        Seq::empty()
    }, rank_of(rank, x))
}

/// The walks that start at the nodes of `xs` ranked below `r`, summed.
pub open spec fn paths_through(g: Seq<Seq<usize>>, rank: Seq<int>, xs: Seq<usize>, r: nat) -> nat
    decreases r, xs.len(),
{
    if xs.len() == 0 {
        0
    } else {
        paths_through(g, rank, xs.drop_last(), r) + if rank_of(rank, xs.last() as int) < r {
            paths_from(g, rank, xs.last() as int)
        } else {
            0
        }
    }
}

/// The walks that start at the nodes of a queue, summed.
pub open spec fn queue_weight(g: Seq<Seq<usize>>, rank: Seq<int>, q: Seq<usize>) -> nat
    decreases q.len(),
{
    if q.len() == 0 {
        0
    } else {
        queue_weight(g, rank, q.drop_last()) + paths_from(g, rank, q.last() as int)
    }
}

/// Taking the front of a queue removes its weight.
pub proof fn lemma_queue_weight_front(g: Seq<Seq<usize>>, rank: Seq<int>, q: Seq<usize>)
    requires
        q.len() > 0,
    ensures
        queue_weight(g, rank, q) == paths_from(g, rank, q[0] as int) + queue_weight(g, rank, q.drop_first()),
    decreases q.len(),
{
    if q.len() > 1 {
        lemma_queue_weight_front(g, rank, q.drop_last());
        assert(q.drop_last().drop_first() =~= q.drop_first().drop_last());
        assert(q.drop_first().last() == q.last());
    } else {
        assert(q.drop_first() =~= Seq::<usize>::empty());
        assert(q.drop_last() =~= Seq::<usize>::empty());
    }
}

/// Whether `t` occurs in `q` from position `from` on.
fn in_queue(q: &Vec<usize>, from: usize, t: usize) -> (r: bool)
    requires
        from <= q@.len(),
    ensures
        r == q@.skip(from as int).contains(t),
{
    let mut i = from;
    while i < q.len()
        invariant
            from <= i <= q@.len(),
            forall|j: int| from <= j < i ==> q@[j] != t,
        decreases q@.len() - i,
    {
        if q[i] == t {
            proof {
                assert(q@.skip(from as int)[i - from] == t);
            }
            return true;
        }
        i = i + 1;
    }
    proof {
        if q@.skip(from as int).contains(t) {
            let j = choose|j: int| 0 <= j < q@.skip(from as int).len() && q@.skip(from as int)[j] == t;
            assert(q@[from + j] == t);
        }
    }
    false
}

/// A level is justified: 0, or at most one more than the level of a node
/// with an edge to it.
pub open spec fn supported(cut: Seq<Seq<usize>>, lv: Seq<Option<usize>>, t: int) -> bool {
    lv[t] matches Some(l) ==> (l == 0 || exists|u: int|
        0 <= u < cut.len() && #[trigger] cut[u].contains(t as usize) && (lv[u] matches Some(lu) && l <= lu + 1))
}

/// The state of the level assignment.
pub open spec fn levels_inv(cut: Seq<Seq<usize>>, rev: Seq<Seq<usize>>, rank: Seq<int>, lv: Seq<Option<usize>>, q: Seq<usize>, head: int) -> bool {
    let n = cut.len();
    &&& lv.len() == n
    &&& 0 <= head <= q.len()
    &&& forall|i: int| 0 <= i < q.len() ==> (#[trigger] q[i] as int) < n && lv[q[i] as int] is Some
    &&& forall|x: int| 0 <= x < n && #[trigger] lv[x] is Some ==> lv[x]->0 + rank[x] <= n - 1
    &&& forall|x: int| 0 <= x < n ==> #[trigger] supported(cut, lv, x)
    &&& forall|x: int| 0 <= x < n && rev[x].len() == 0 ==> (#[trigger] lv[x] is None || lv[x] == Some(0usize))
}

/// `rv` lists, for each node, only nodes with an edge to it in `g`: it is
/// exactly the reverse of `g`.
pub open spec fn reverse_exact(g: Seq<Seq<usize>>, rv: Seq<Seq<usize>>) -> bool {
    forall|t: int, i: int|
        0 <= t < rv.len() && 0 <= i < rv[t].len() ==> (#[trigger] rv[t][i] as int) < g.len() && g[rv[t][i] as int].contains(
            t as usize,
        )
}

/// Node `x` waits in the queue `q` from position `head` on.
pub open spec fn pending(q: Seq<usize>, head: int, x: int) -> bool {
    q.skip(head).contains(x as usize)
}

/// Every node leading to `x` has a level.
pub open spec fn deps_leveled(rv: Seq<Seq<usize>>, lv: Seq<Option<usize>>, x: int) -> bool {
    forall|i: int| 0 <= i < rv[x].len() ==> lv[#[trigger] rv[x][i] as int] is Some
}

/// Every node leading to `x` has been processed.
pub open spec fn deps_done(rv: Seq<Seq<usize>>, done: Seq<bool>, x: int) -> bool {
    forall|i: int| 0 <= i < rv[x].len() ==> done[#[trigger] rv[x][i] as int]
}

/// `t` lies at least one level below `u`.
pub open spec fn deeper(lv: Seq<Option<usize>>, u: int, t: usize) -> bool {
    &&& lv[u] is Some
    &&& lv[t as int] is Some
    &&& lv[t as int]->0 >= lv[u]->0 + 1
}

/// Every node `u` has an edge to lies at least one level below it.
pub open spec fn settled(g: Seq<Seq<usize>>, lv: Seq<Option<usize>>, u: int) -> bool {
    forall|j: int| 0 <= j < g[u].len() ==> deeper(lv, u, #[trigger] g[u][j])
}

/// No level is lost and none goes down from `a` to `b`.
pub open spec fn levels_grow(a: Seq<Option<usize>>, b: Seq<Option<usize>>) -> bool {
    &&& a.len() == b.len()
    &&& forall|x: int| 0 <= x < a.len() && #[trigger] a[x] is Some ==> b[x] is Some && b[x]->0 >= a[x]->0
}

/// The order in which the nodes are processed, `done` marking those
/// processed at least once: a processed node has a level, as do the nodes
/// leading to it and to every queued node; a processed node that does not
/// wait in the queue again has every node it leads to one level below it;
/// and a node all of whose predecessors were processed was processed or
/// waits in the queue.
pub open spec fn order_inv(
    g: Seq<Seq<usize>>,
    rv: Seq<Seq<usize>>,
    lv: Seq<Option<usize>>,
    q: Seq<usize>,
    head: int,
    done: Seq<bool>,
) -> bool {
    let n = g.len();
    &&& done.len() == n
    &&& forall|x: int| 0 <= x < n && #[trigger] done[x] ==> lv[x] is Some && deps_leveled(rv, lv, x)
    &&& forall|i: int| 0 <= i < q.len() ==> deps_leveled(rv, lv, #[trigger] q[i] as int)
    &&& forall|x: int| 0 <= x < n && #[trigger] done[x] && !pending(q, head, x) ==> settled(g, lv, x)
    &&& forall|x: int| 0 <= x < n && #[trigger] deps_done(rv, done, x) ==> done[x] || pending(q, head, x)
}

/// Growing levels keep the nodes leading to `x` leveled.
proof fn lemma_deps_leveled_grow(rv: Seq<Seq<usize>>, a: Seq<Option<usize>>, b: Seq<Option<usize>>, x: int)
    requires
        levels_grow(a, b),
        deps_leveled(rv, a, x),
        edges_within(rv),
        0 <= x < rv.len(),
        rv.len() == a.len(),
    ensures
        deps_leveled(rv, b, x),
{
    assert forall|i: int| 0 <= i < rv[x].len() implies b[#[trigger] rv[x][i] as int] is Some by {
        assert(a[rv[x][i] as int] is Some);
    }
}

/// Growing levels keep a node settled when its own level stays.
proof fn lemma_settled_grow(g: Seq<Seq<usize>>, a: Seq<Option<usize>>, b: Seq<Option<usize>>, u: int)
    requires
        levels_grow(a, b),
        settled(g, a, u),
        edges_within(g),
        0 <= u < g.len(),
        g.len() == a.len(),
        b[u] == a[u],
    ensures
        settled(g, b, u),
{
    assert forall|j: int| 0 <= j < g[u].len() implies deeper(b, u, #[trigger] g[u][j]) by {
        assert(deeper(a, u, g[u][j]));
        assert(a[g[u][j] as int] is Some);
    }
}

/// When every node whose predecessors were all processed was processed,
/// and the lists are cycle-free with `rv` their exact reverse, every node
/// was processed.
proof fn lemma_all_done(g: Seq<Seq<usize>>, rv: Seq<Seq<usize>>, rank: Seq<int>, done: Seq<bool>, x: int)
    requires
        ranked(g, rank),
        reverse_exact(g, rv),
        rv.len() == g.len(),
        done.len() == g.len(),
        forall|y: int| 0 <= y < g.len() && #[trigger] deps_done(rv, done, y) ==> done[y],
        0 <= x < g.len(),
        g.len() <= usize::MAX,
    ensures
        done[x],
    decreases g.len() - rank[x],
{
    assert forall|i: int| 0 <= i < rv[x].len() implies done[#[trigger] rv[x][i] as int] by {
        let w = rv[x][i] as int;
        assert(g[w].contains(x as usize));
        let j = choose|j: int| 0 <= j < g[w].len() && g[w][j] == x as usize;
        assert(g[w][j] as int == x);
        assert(rank[g[w][j] as int] < rank[w]);
        assert(0 <= rank[w] < g.len());
        lemma_all_done(g, rv, rank, done, w);
    }
    assert(deps_done(rv, done, x));
}

/// The index of a largest rank among the first `k` nodes.
proof fn lemma_max_rank(rank: Seq<int>, k: int) -> (x: int)
    requires
        0 < k <= rank.len(),
    ensures
        0 <= x < k,
        forall|y: int| 0 <= y < k ==> rank[y] <= rank[x],
    decreases k,
{
    if k == 1 {
        0
    } else {
        let x = lemma_max_rank(rank, k - 1);
        if rank[k - 1] > rank[x] {
            k - 1
        } else {
            x
        }
    }
}

/// Cycle-free lists with at least one node have a node that nothing leads
/// to, by the exact reverse lists.
proof fn lemma_source_exists(g: Seq<Seq<usize>>, rv: Seq<Seq<usize>>, rank: Seq<int>)
    requires
        ranked(g, rank),
        reverse_exact(g, rv),
        rv.len() == g.len(),
        g.len() > 0,
        g.len() <= usize::MAX,
    ensures
        exists|x: int| 0 <= x < g.len() && (#[trigger] rv[x]).len() == 0,
{
    let x = lemma_max_rank(rank, g.len() as int);
    if rv[x].len() > 0 {
        let w = rv[x][0] as int;
        assert(g[w].contains(x as usize));
        let j = choose|j: int| 0 <= j < g[w].len() && g[w][j] == x as usize;
        assert(g[w][j] as int == x);
        assert(rank[g[w][j] as int] < rank[w]);
        assert(rank[w] <= rank[x]);
        assert(false);
    }
}

/// Places the nodes of the cycle-free lists `cut` in levels: nodes that
/// nothing leads to (by `rev`, the lists of where edges come from) start
/// at level 0 (when there are none, the nodes with fewest incoming edges
/// do), and each node reached from a node at level `l` moves to at least
/// `l + 1`; a node is passed on once all the nodes leading to it have a
/// level, and again whenever its level rises. Nodes never reached are at
/// level 0. When `rev` is exactly the reverse of `cut`, every node is
/// reached and every edge leads at least one level down.
pub fn assign_levels(cut: &Vec<Vec<usize>>, rev: &Vec<Vec<usize>>) -> (r: Vec<usize>)
    requires
        edges_within(adj(cut@)),
        edges_within(adj(rev@)),
        rev@.len() == cut@.len(),
        acyclic(adj(cut@)),
        forall|u: int, t: usize| 0 <= u < cut@.len() && #[trigger] cut@[u]@.contains(t) ==> rev@[t as int]@.contains(u as usize),
    ensures
        r@.len() == cut@.len(),
        forall|x: int| 0 <= x < r@.len() ==> #[trigger] r@[x] < r@.len(),
        forall|x: int| 0 <= x < r@.len() && rev@[x]@.len() == 0 ==> #[trigger] r@[x] == 0,
        forall|t: int|
            0 <= t < r@.len() && #[trigger] r@[t] > 0 ==> exists|u: int|
                0 <= u < r@.len() && #[trigger] cut@[u]@.contains(t as usize) && r@[t] <= r@[u] + 1,
        reverse_exact(adj(cut@), adj(rev@)) ==> forall|u: int, t: usize|
            0 <= u < r@.len() && #[trigger] cut@[u]@.contains(t) ==> r@[t as int] >= r@[u] + 1,
{
    let ghost g = adj(cut@);
    let ghost rv = adj(rev@);
    let ghost rank = choose|rank: Seq<int>| ranked(g, rank);
    let n = rev.len();
    let mut sources: Vec<usize> = Vec::new();
    let mut t: usize = 0;
    while t < n
        invariant
            n == rev@.len(),
            rv == adj(rev@),
            t <= n,
            forall|i: int| 0 <= i < sources@.len() ==> (#[trigger] sources@[i]) < t,
            forall|i: int| 0 <= i < sources@.len() ==> rv[#[trigger] sources@[i] as int].len() == 0,
            forall|x: int| 0 <= x < t && #[trigger] rv[x].len() == 0 ==> sources@.contains(x as usize),
        decreases n - t,
    {
        proof {
            assert(rv[t as int] == rev@[t as int]@);
        }
        if rev[t].len() == 0 {
            let ghost s0 = sources@;
            sources.push(t);
            proof {
                assert(sources@[s0.len() as int] == t);
                assert forall|x: int| 0 <= x < t + 1 && #[trigger] rv[x].len() == 0 implies sources@.contains(x as usize) by {
                    if x < t {
                        let i = choose|i: int| 0 <= i < s0.len() && s0[i] == x as usize;
                        assert(sources@[i] == s0[i]);
                    }
                }
            }
        }
        t = t + 1;
    }
    proof {
        if reverse_exact(g, rv) && n > 0 && sources@.len() == 0 {
            lemma_source_exists(g, rv, rank);
            let x = choose|x: int| 0 <= x < g.len() && (#[trigger] rv[x]).len() == 0;
            assert(sources@.contains(x as usize));
        }
    }
    if sources.len() == 0 {
        let mut min_incoming: usize = usize::MAX;
        let mut t: usize = 0;
        while t < n
            invariant
                n == rev@.len(),
                t <= n,
                forall|i: int| 0 <= i < sources@.len() ==> (#[trigger] sources@[i]) < t,
                reverse_exact(g, rv) ==> n == 0,
            decreases n - t,
        {
            let c = rev[t].len();
            if c < min_incoming {
                min_incoming = c;
                sources = Vec::new();
                sources.push(t);
            } else if c == min_incoming {
                sources.push(t);
            }
            t = t + 1;
        }
    }
    let mut levels: Vec<Option<usize>> = Vec::new();
    let mut k: usize = 0;
    while k < n
        invariant
            k <= n,
            levels@.len() == k,
            forall|i: int| 0 <= i < k ==> #[trigger] levels@[i] is None,
        decreases n - k,
    {
        levels.push(None);
        k = k + 1;
    }
    let mut k: usize = 0;
    proof {
        assert(sources@.take(0) =~= Seq::<usize>::empty());
    }
    while k < sources.len()
        invariant
            n == rev@.len(),
            n == g.len(),
            ranked(g, rank),
            k <= sources@.len(),
            forall|i: int| 0 <= i < sources@.len() ==> (#[trigger] sources@[i]) < n,
            forall|x: int| 0 <= x < n ==> #[trigger] levels@[x] is None || levels@[x] == Some(0usize),
            levels_inv(g, rv, rank, levels@, sources@.take(k as int), 0),
            g == adj(cut@),
            rv == adj(rev@),
            reverse_exact(g, rv) ==> forall|i: int| 0 <= i < sources@.len() ==> rv[#[trigger] sources@[i] as int].len() == 0,
            reverse_exact(g, rv) ==> forall|x: int| 0 <= x < n && #[trigger] rv[x].len() == 0 ==> sources@.contains(x as usize),
        decreases sources@.len() - k,
    {
        let s = sources[k];
        let ghost lv0 = levels@;
        levels.set(s, Some(0));
        proof {
            assert(sources@.take(k + 1) =~= sources@.take(k as int).push(s));
            assert(0 <= rank[s as int] < n);
            assert forall|x: int| 0 <= x < n implies #[trigger] supported(g, levels@, x) by {
                assert(levels@[x] is None || levels@[x] == Some(0usize));
            }
            assert forall|i: int| 0 <= i < sources@.take(k + 1).len() implies (#[trigger] sources@.take(k + 1)[i] as int) < n && levels@[sources@.take(k + 1)[i] as int] is Some by {
                if i < k {
                    assert(sources@.take(k + 1)[i] == sources@.take(k as int)[i]);
                }
            }
        }
        k = k + 1;
    }
    proof {
        assert(sources@.take(sources@.len() as int) =~= sources@);
    }
    let mut queue = sources;
    let mut head: usize = 0;
    let ghost mut done: Seq<bool> = Seq::new(n as nat, |i: int| false);
    proof {
        if reverse_exact(g, rv) {
            assert(queue@.skip(0) =~= queue@);
            assert forall|x: int| 0 <= x < n && #[trigger] deps_done(rv, done, x) implies done[x] || pending(queue@, 0, x) by {
                if rv[x].len() > 0 {
                    assert(done[rv[x][0] as int]);
                }
                assert(queue@.contains(x as usize));
            }
            assert forall|i: int| 0 <= i < queue@.len() implies deps_leveled(rv, levels@, #[trigger] queue@[i] as int) by {
                assert(rv[queue@[i] as int].len() == 0);
            }
            assert(order_inv(g, rv, levels@, queue@, 0, done));
        }
    }
    while head < queue.len()
        invariant
            n == rev@.len(),
            n == g.len(),
            g == adj(cut@),
            rv == adj(rev@),
            edges_within(g),
            edges_within(rv),
            ranked(g, rank),
            levels_inv(g, rv, rank, levels@, queue@, head as int),
            forall|u: int, t: usize| 0 <= u < g.len() && #[trigger] g[u].contains(t) ==> rv[t as int].contains(u as usize),
            n <= usize::MAX,
            done.len() == n,
            reverse_exact(g, rv) ==> order_inv(g, rv, levels@, queue@, head as int, done),
        decreases queue_weight(g, rank, queue@.skip(head as int)),
    {
        let ghost before = queue@.skip(head as int);
        let u = queue[head];
        let ghost h0 = head as int;
        head = head + 1;
        proof {
            lemma_queue_weight_front(g, rank, before);
            assert(before.drop_first() =~= queue@.skip(head as int));
            let d0 = done;
            done = done.update(u as int, true);
            if reverse_exact(g, rv) {
                assert(deps_leveled(rv, levels@, queue@[h0] as int));
                assert forall|x: int| 0 <= x < n && x != u && pending(queue@, h0, x) implies pending(queue@, head as int, x) by {
                    let i = choose|i: int| 0 <= i < queue@.skip(h0).len() && queue@.skip(h0)[i] == x as usize;
                    assert(queue@.skip(h0)[i] == queue@[h0 + i]);
                    assert(i != 0);
                    assert(queue@.skip(head as int)[i - 1] == queue@[h0 + i]);
                }
                assert forall|x: int| 0 <= x < n && #[trigger] deps_done(rv, done, x) && !g[u as int].skip(0).contains(x as usize)
                    implies done[x] || pending(queue@, head as int, x) by {
                    assert(g[u as int].skip(0) =~= g[u as int]);
                    if x != u {
                        assert forall|i: int| 0 <= i < rv[x].len() implies d0[#[trigger] rv[x][i] as int] by {
                            if rv[x][i] == u {
                                assert(g[u as int].contains(x as usize));
                            }
                            assert(done[rv[x][i] as int]);
                        }
                        assert(deps_done(rv, d0, x));
                    }
                }
                assert forall|x: int| 0 <= x < n && x != u && #[trigger] done[x] && !pending(queue@, head as int, x) implies settled(g, levels@, x) by {
                    assert(d0[x]);
                }
            }
        }
        let cur = match levels[u] {
            Some(l) => l,
            None => 0,
        };
        let ghost after_pop = queue@.skip(head as int);
        let m = cut[u].len();
        let mut j: usize = 0;
        proof {
            assert(cut@[u as int]@ == g[u as int]);
            assert(g[u as int].take(0) =~= Seq::<usize>::empty());
        }
        while j < m
            invariant
                n == g.len(),
                g == adj(cut@),
                rv == adj(rev@),
                edges_within(g),
                edges_within(rv),
                ranked(g, rank),
                u < n,
                n == rev@.len(),
                m == g[u as int].len(),
                j <= m,
                levels@[u as int] == Some(cur),
                levels_inv(g, rv, rank, levels@, queue@, head as int),
                queue@.skip(head as int).len() >= after_pop.len(),
                queue@.skip(head as int).take(after_pop.len() as int) == after_pop,
                queue_weight(g, rank, queue@.skip(head as int)) <= queue_weight(g, rank, after_pop) + paths_through(
                    g,
                    rank,
                    g[u as int].take(j as int),
                    rank_of(rank, u as int),
                ),
                forall|u2: int, t: usize| 0 <= u2 < g.len() && #[trigger] g[u2].contains(t) ==> rv[t as int].contains(u2 as usize),
                n <= usize::MAX,
                done.len() == n,
                done[u as int],
                reverse_exact(g, rv) ==> {
                    &&& forall|x: int| 0 <= x < n && #[trigger] done[x] ==> levels@[x] is Some && deps_leveled(rv, levels@, x)
                    &&& forall|i: int| 0 <= i < queue@.len() ==> deps_leveled(rv, levels@, #[trigger] queue@[i] as int)
                    &&& forall|x: int| 0 <= x < n && x != u && #[trigger] done[x] && !pending(queue@, head as int, x) ==> settled(g, levels@, x)
                    &&& forall|j2: int| 0 <= j2 < j ==> deeper(levels@, u as int, #[trigger] g[u as int][j2])
                    &&& forall|x: int| 0 <= x < n && #[trigger] deps_done(rv, done, x) && !g[u as int].skip(j as int).contains(x as usize)
                        ==> done[x] || pending(queue@, head as int, x)
                },
            decreases m - j,
        {
            let t = cut[u][j];
            proof {
                assert(g[u as int][j as int] == t);
                assert(t < n);
                assert(rank[t as int] < rank[u as int]);
                assert(g[u as int].take(j + 1).drop_last() =~= g[u as int].take(j as int));
                assert(g[u as int].take(j + 1).last() == t);
                assert(rank_of(rank, t as int) < rank_of(rank, u as int));
            }
            let tl = match levels[t] {
                Some(l) => l,
                None => 0,
            };
            let nl = if tl > cur + 1 {
                tl
            } else {
                cur + 1
            };
            let ghost lv0 = levels@;
            levels.set(t, Some(nl));
            let ghost lv1 = levels@;
            proof {
                assert(t != u);
                assert(levels_grow(lv0, lv1));
                assert(g[u as int].contains(t));
                assert(rv[t as int].contains(u));
                assert forall|x: int| 0 <= x < n implies #[trigger] supported(g, levels@, x) by {
                    if x == t as int {
                        if nl == cur + 1 {
                            assert(g[u as int].contains(x as usize));
                        } else {
                            assert(supported(g, lv0, x));
                            if nl > 0 && lv0[x] is Some {
                                let w = choose|w: int| 0 <= w < g.len() && #[trigger] g[w].contains(x as usize) && (lv0[w] matches Some(lw) && tl <= lw + 1);
                                assert(levels@[w] matches Some(lw2) && tl <= lw2 + 1);
                            }
                        }
                    } else {
                        assert(supported(g, lv0, x));
                        match levels@[x] {
                            Some(l) => {
                                if l > 0 {
                                    let w = choose|w: int| 0 <= w < g.len() && #[trigger] g[w].contains(x as usize) && (lv0[w] matches Some(lw) && l <= lw + 1);
                                    assert(levels@[w] matches Some(lw2) && l <= lw2 + 1);
                                }
                            },
                            None => {},
                        }
                    }
                }
                assert forall|x: int| 0 <= x < n && rv[x].len() == 0 implies (#[trigger] levels@[x] is None || levels@[x] == Some(0usize)) by {
                    if x == t as int {
                        assert(rv[t as int].contains(u));
                    }
                }
            }
            let mut all_deps_processed = true;
            let incoming = &rev[t];
            let c = incoming.len();
            let mut p: usize = 0;
            proof {
                assert(rv[t as int] == incoming@);
            }
            while p < c && all_deps_processed
                invariant
                    c == incoming@.len(),
                    levels@ == lv1,
                    levels@.len() == n,
                    p <= c,
                    all_deps_processed <==> (forall|p2: int| 0 <= p2 < p ==> (#[trigger] incoming@[p2] as int) < n && levels@[incoming@[p2] as int] is Some),
                decreases c - p,
            {
                let w = incoming[p];
                if w >= n || levels[w].is_none() {
                    all_deps_processed = false;
                }
                p = p + 1;
            }
            proof {
                if all_deps_processed {
                    assert(p == c);
                    assert(deps_leveled(rv, lv1, t as int));
                } else {
                    let p2 = choose|p2: int| 0 <= p2 < p && !((#[trigger] incoming@[p2] as int) < n && levels@[incoming@[p2] as int] is Some);
                    assert(!deps_leveled(rv, lv1, t as int)) by {
                        assert(rv[t as int][p2] == incoming@[p2]);
                        assert((rv[t as int][p2] as int) < n);
                    }
                }
            }
            let ghost q0 = queue@;
            let ghost qb = queue@.skip(head as int);
            let mut pushed = false;
            if all_deps_processed && !in_queue(&queue, head, t) {
                queue.push(t);
                pushed = true;
                proof {
                    assert(queue@.skip(head as int) =~= qb.push(t));
                    assert(qb.push(t).drop_last() =~= qb);
                    assert(queue@.skip(head as int).take(after_pop.len() as int) =~= qb.take(after_pop.len() as int));
                }
            }
            proof {
                assert forall|x: int| pending(q0, head as int, x) implies pending(queue@, head as int, x) by {
                    if pushed {
                        let i = choose|i: int| 0 <= i < qb.len() && qb[i] == x as usize;
                        assert(queue@.skip(head as int)[i] == qb[i]);
                    } else {
                        assert(queue@ == q0);
                    }
                }
                if deps_leveled(rv, lv1, t as int) {
                    if pushed {
                        assert(queue@.skip(head as int)[qb.len() as int] == t);
                    }
                    assert(pending(queue@, head as int, t as int));
                }
                if reverse_exact(g, rv) {
                    assert forall|x: int| 0 <= x < n && #[trigger] done[x] implies levels@[x] is Some && deps_leveled(rv, levels@, x) by {
                        lemma_deps_leveled_grow(rv, lv0, lv1, x);
                    }
                    assert forall|i: int| 0 <= i < queue@.len() implies deps_leveled(rv, levels@, #[trigger] queue@[i] as int) by {
                        if i < q0.len() {
                            assert(queue@[i] == q0[i]);
                            lemma_deps_leveled_grow(rv, lv0, lv1, q0[i] as int);
                        }
                    }
                    assert forall|x: int| 0 <= x < n && x != u && #[trigger] done[x] && !pending(queue@, head as int, x)
                        implies settled(g, levels@, x) by {
                        assert(!pending(q0, head as int, x));
                        if x == t as int {
                            lemma_deps_leveled_grow(rv, lv0, lv1, x);
                        } else {
                            lemma_settled_grow(g, lv0, lv1, x);
                        }
                    }
                    assert forall|j2: int| 0 <= j2 < j + 1 implies deeper(levels@, u as int, #[trigger] g[u as int][j2]) by {
                        if j2 < j {
                            assert(deeper(lv0, u as int, g[u as int][j2]));
                            assert(lv0[g[u as int][j2] as int] is Some);
                        }
                    }
                    assert forall|x: int| 0 <= x < n && #[trigger] deps_done(rv, done, x) && !g[u as int].skip(j + 1).contains(x as usize)
                        implies done[x] || pending(queue@, head as int, x) by {
                        if x == t as int {
                            assert forall|i: int| 0 <= i < rv[x].len() implies lv1[#[trigger] rv[x][i] as int] is Some by {
                                assert(done[rv[x][i] as int]);
                                assert(lv0[rv[x][i] as int] is Some);
                            }
                        } else {
                            if g[u as int].skip(j as int).contains(x as usize) {
                                let k2 = choose|k2: int| 0 <= k2 < g[u as int].skip(j as int).len() && g[u as int].skip(j as int)[k2] == x as usize;
                                assert(g[u as int].skip(j as int)[0] == t);
                                assert(k2 != 0);
                                assert(g[u as int].skip(j + 1)[k2 - 1] == g[u as int].skip(j as int)[k2]);
                            }
                        }
                    }
                }
            }
            j = j + 1;
        }
        proof {
            assert(g[u as int].take(m as int) =~= g[u as int]);
            if reverse_exact(g, rv) {
                assert(g[u as int].skip(m as int) =~= Seq::<usize>::empty());
                assert forall|x: int| 0 <= x < n && #[trigger] done[x] && !pending(queue@, head as int, x) implies settled(g, levels@, x) by {
                    if x == u as int {
                        assert forall|j2: int| 0 <= j2 < g[x].len() implies deeper(levels@, x, #[trigger] g[x][j2]) by {
                            assert(deeper(levels@, u as int, g[u as int][j2]));
                        }
                    }
                }
                assert(order_inv(g, rv, levels@, queue@, head as int, done));
            }
        }
    }
    proof {
        if reverse_exact(g, rv) {
            assert(queue@.skip(head as int) =~= Seq::<usize>::empty());
            assert forall|y: int| 0 <= y < g.len() && #[trigger] deps_done(rv, done, y) implies done[y] by {
                assert(!pending(queue@, head as int, y));
            }
            assert forall|x: int| 0 <= x < n implies settled(g, levels@, x) by {
                lemma_all_done(g, rv, rank, done, x);
                assert(!pending(queue@, head as int, x));
            }
        }
    }
    let mut r: Vec<usize> = Vec::new();
    let mut x: usize = 0;
    while x < n
        invariant
            n == g.len(),
            x <= n,
            r@.len() == x,
            levels_inv(g, rv, rank, levels@, queue@, head as int),
            reverse_exact(g, rv) ==> forall|y: int| 0 <= y < n ==> #[trigger] settled(g, levels@, y),
            g == adj(cut@),
            rv == adj(rev@),
            forall|i: int| 0 <= i < x ==> #[trigger] r@[i] == match levels@[i] {
                Some(l) => l,
                None => 0,
            },
        decreases n - x,
    {
        let l = match levels[x] {
            Some(l) => l,
            None => 0,
        };
        r.push(l);
        x = x + 1;
    }
    proof {
        assert forall|t: int| 0 <= t < r@.len() && #[trigger] r@[t] > 0 implies exists|u: int|
            0 <= u < r@.len() && #[trigger] cut@[u]@.contains(t as usize) && r@[t] <= r@[u] + 1 by {
            assert(supported(g, levels@, t));
            let u = choose|u: int| 0 <= u < g.len() && #[trigger] g[u].contains(t as usize) && (levels@[u] matches Some(lu) && r@[t] <= lu + 1);
            assert(cut@[u]@ == g[u]);
        }
        assert forall|x2: int| 0 <= x2 < r@.len() implies #[trigger] r@[x2] < r@.len() by {
            assert(0 <= rank[x2]);
        }
        if reverse_exact(g, rv) {
            assert forall|u: int, t: usize| 0 <= u < r@.len() && #[trigger] cut@[u]@.contains(t) implies r@[t as int] >= r@[u] + 1 by {
                assert(cut@[u]@ == g[u]);
                let j2 = choose|j2: int| 0 <= j2 < g[u].len() && g[u][j2] == t;
                assert(settled(g, levels@, u));
                assert(deeper(levels@, u, g[u][j2]));
            }
        }
    }
    r
}

/// Every connection of the graph ends at a node of the graph.
pub open spec fn targets_known(g: GraphView) -> bool {
    forall|h: Seq<char>, k: int, i: int|
        g.instances.dom().contains(h) && 0 <= k < g.instances[h].slots.len() && 0 <= i
            < g.instances[h].slots[k].connections.len() ==> g.instances.dom().contains(
            (#[trigger] g.instances[h].slots[k].connections[i]).target_node_id,
        )
}

pub open spec fn same_text(x: Seq<char>) -> spec_fn(Seq<char>) -> bool {
    |s: Seq<char>| s == x
}

/// The position of the first `x` in `ids`.
pub open spec fn position_of(ids: Seq<Seq<char>>, x: Seq<char>) -> int {
    first_index(ids, same_text(x))->0
}

/// Each hosted connection is a connection of one of the slots.
pub proof fn lemma_hosted_member(slots: Seq<crate::model::SlotInstanceView>, q: int)
    requires
        0 <= q < hosted_connections(slots).len(),
    ensures
        exists|k: int, i: int|
            0 <= k < slots.len() && 0 <= i < slots[k].connections.len() && #[trigger] slots[k].connections[i]
                == hosted_connections(slots)[q],
    decreases slots.len(),
{
    let t = slots.drop_last();
    let h = hosted_connections(t);
    if q < h.len() {
        lemma_hosted_member(t, q);
        let (k, i) = choose|k: int, i: int|
            0 <= k < t.len() && 0 <= i < t[k].connections.len() && #[trigger] t[k].connections[i] == h[q];
        assert(slots[k] == t[k]);
        assert(slots[k].connections[i] == hosted_connections(slots)[q]);
    } else {
        let k = slots.len() - 1;
        assert(slots[k].connections[q - h.len()] == hosted_connections(slots)[q]);
    }
}

/// Where `x` first occurs in `ids`, which holds it.
fn position_in(ids: &Vec<String>, x: &String) -> (r: usize)
    requires
        string_views(ids@).contains(x@),
    ensures
        r < ids@.len(),
        first_index(string_views(ids@), same_text(x@)) == Some(r as int),
{
    let ghost v = string_views(ids@);
    let ghost p = same_text(x@);
    proof {
        lemma_first_index(v, p);
        let w = choose|w: int| 0 <= w < v.len() && v[w] == x@;
        assert(p(v[w]));
    }
    let n = ids.len();
    let mut i: usize = 0;
    while i < n
        invariant
            n == ids@.len(),
            v == string_views(ids@),
            p == same_text(x@),
            first_index(v, p) is Some,
            i <= n,
            forall|j: int| 0 <= j < i ==> !p(#[trigger] v[j]),
        decreases n - i,
    {
        if str_eq(ids[i].as_str(), x.as_str()) {
            proof {
                assert(p(v[i as int]));
                lemma_first_index_is(v, p, i as int);
            }
            return i;
        }
        proof {
            assert(!p(v[i as int]));
        }
        i = i + 1;
    }
    proof {
        lemma_first_index(v, p);
    }
    0
}

/// The nodes of a graph, each once, and for each the positions, in that
/// list, of the nodes its connections end at, slot by slot.
pub fn dependency_lists(graph: &Graph) -> (r: (Vec<String>, Vec<Vec<usize>>))
    requires
        graph.wf(),
        targets_known(graph@),
    ensures
        string_views(r.0@).no_duplicates(),
        forall|x: Seq<char>| graph@.instances.dom().contains(x) <==> #[trigger] string_views(r.0@).contains(x),
        r.1@.len() == r.0@.len(),
        edges_within(adj(r.1@)),
        forall|i: int|
            #![trigger adj(r.1@)[i]]
            0 <= i < r.1@.len() ==> {
                let hosted = hosted_connections(graph@.instances[r.0@[i]@].slots);
                &&& adj(r.1@)[i].len() == hosted.len()
                &&& forall|j: int|
                    0 <= j < hosted.len() ==> (#[trigger] adj(r.1@)[i][j] as int) == position_of(
                        string_views(r.0@),
                        hosted[j].target_node_id,
                    )
            },
{
    proof {
        graph.lemma_wf();
    }
    let ghost g = graph@;
    let list = graph.instance_list();
    let ghost s = node_instance_views(list@);
    let n = list.len();
    let mut ids: Vec<String> = Vec::new();
    let mut i: usize = 0;
    while i < n
        invariant
            n == list@.len(),
            s == node_instance_views(list@),
            i <= n,
            ids@.len() == i,
            forall|j: int| 0 <= j < i ==> (#[trigger] ids@[j])@ == s[j].instance_id,
        decreases n - i,
    {
        ids.push(list[i].instance_id.clone());
        i = i + 1;
    }
    let ghost iv = string_views(ids@);
    proof {
        assert forall|a: int, b: int| 0 <= a < iv.len() && 0 <= b < iv.len() && a != b implies iv[a] != iv[b] by {
            assert((instance_key())(s[a]) != (instance_key())(s[b]));
        }
        assert forall|x: Seq<char>| g.instances.dom().contains(x) <==> #[trigger] iv.contains(x) by {
            lemma_keyed_dom(s, instance_key(), x);
            if g.instances.dom().contains(x) {
                let j = choose|j: int| 0 <= j < s.len() && (instance_key())(s[j]) == x;
                assert(iv[j] == x);
            }
            if iv.contains(x) {
                let j = choose|j: int| 0 <= j < iv.len() && iv[j] == x;
                assert((instance_key())(s[j]) == x);
            }
        }
    }
    let mut deps: Vec<Vec<usize>> = Vec::new();
    let mut i: usize = 0;
    while i < n
        invariant
            n == list@.len(),
            n == ids@.len(),
            s == node_instance_views(list@),
            distinct_keys(s, instance_key()),
            keyed(s, instance_key()) == g.instances,
            graph.wf(),
            g == graph@,
            targets_known(g),
            iv == string_views(ids@),
            forall|j: int| 0 <= j < n ==> (#[trigger] ids@[j])@ == s[j].instance_id,
            forall|x: Seq<char>| g.instances.dom().contains(x) <==> #[trigger] iv.contains(x),
            i <= n,
            deps@.len() == i,
            forall|a: int, b: int| 0 <= a < i && 0 <= b < adj(deps@)[a].len() ==> (#[trigger] adj(deps@)[a][b]) < n,
            forall|a: int|
                #![trigger adj(deps@)[a]]
                0 <= a < i ==> {
                    let hosted = hosted_connections(g.instances[ids@[a]@].slots);
                    &&& adj(deps@)[a].len() == hosted.len()
                    &&& forall|j: int|
                        0 <= j < hosted.len() ==> (#[trigger] adj(deps@)[a][j] as int) == position_of(iv, hosted[j].target_node_id)
                },
        decreases n - i,
    {
        proof {
            lemma_keyed_index(s, instance_key(), i as int);
        }
        let conns = graph.get_node_connections(ids[i].as_str());
        let ghost hosted = hosted_connections(g.instances[ids@[i as int]@].slots);
        proof {
            assert(connection_views(conns@) == hosted);
            assert(iv.contains(ids@[i as int]@)) by {
                assert(iv[i as int] == ids@[i as int]@);
            }
            let h = ids@[i as int]@;
            assert forall|q: int| 0 <= q < hosted.len() implies g.instances.dom().contains(#[trigger] hosted[q].target_node_id) by {
                lemma_hosted_member(g.instances[h].slots, q);
                let (k, c) = choose|k: int, c: int|
                    0 <= k < g.instances[h].slots.len() && 0 <= c < g.instances[h].slots[k].connections.len()
                        && #[trigger] g.instances[h].slots[k].connections[c] == hosted[q];
            }
        }
        let mut targets: Vec<usize> = Vec::new();
        let m = conns.len();
        let mut j: usize = 0;
        while j < m
            invariant
                m == conns@.len(),
                n == ids@.len(),
                iv == string_views(ids@),
                connection_views(conns@) == hosted,
                forall|x: Seq<char>| g.instances.dom().contains(x) <==> #[trigger] iv.contains(x),
                forall|q: int| 0 <= q < hosted.len() ==> g.instances.dom().contains(#[trigger] hosted[q].target_node_id),
                j <= m,
                targets@.len() == j,
                forall|q: int| 0 <= q < j ==> (#[trigger] targets@[q]) < n && targets@[q] as int == position_of(iv, hosted[q].target_node_id),
            decreases m - j,
        {
            proof {
                assert(hosted[j as int] == conns@[j as int]@);
                assert(iv.contains(hosted[j as int].target_node_id));
            }
            let p = position_in(&ids, &conns[j].target_node_id);
            targets.push(p);
            j = j + 1;
        }
        let ghost before = deps@;
        deps.push(targets);
        proof {
            assert forall|a: int| 0 <= a < before.len() implies adj(deps@)[a] == adj(before)[a] by {}
            assert(adj(deps@)[i as int] == targets@);
            assert forall|a: int| #![trigger adj(deps@)[a]] 0 <= a < i + 1 implies {
                let hosted2 = hosted_connections(g.instances[ids@[a]@].slots);
                &&& adj(deps@)[a].len() == hosted2.len()
                &&& forall|j2: int|
                    0 <= j2 < hosted2.len() ==> (#[trigger] adj(deps@)[a][j2] as int) == position_of(iv, hosted2[j2].target_node_id)
            } by {
                if a < i {
                    assert(adj(deps@)[a] == adj(before)[a]);
                } else {
                    assert(adj(deps@)[a] == targets@);
                    assert forall|j2: int| 0 <= j2 < hosted.len() implies (#[trigger] adj(deps@)[a][j2] as int) == position_of(iv, hosted[j2].target_node_id) by {
                        assert(adj(deps@)[a][j2] == targets@[j2]);
                    }
                }
            }
            assert forall|a: int, b: int| 0 <= a < i + 1 && 0 <= b < adj(deps@)[a].len() implies (#[trigger] adj(deps@)[a][b]) < n by {
                if a < i {
                    assert(adj(deps@)[a] == adj(before)[a]);
                } else {
                    assert(adj(deps@)[a][b] == targets@[b]);
                }
            }
        }
        i = i + 1;
    }
    (ids, deps)
}

/// For each node, the nodes whose lists hold it, once per occurrence, in
/// list order.
pub open spec fn incoming(g: Seq<Seq<usize>>, t: usize, upto: int) -> Seq<int>
    decreases upto,
{
    if upto <= 0 {
        Seq::empty()
    } else {
        incoming(g, t, upto - 1) + row_hits(g[upto - 1], t, upto - 1)
    }
}

/// `u` once for each occurrence of `t` in `row`.
pub open spec fn row_hits(row: Seq<usize>, t: usize, u: int) -> Seq<int>
    decreases row.len(),
{
    if row.len() == 0 {
        Seq::empty()
    } else {
        row_hits(row.drop_last(), t, u) + if row.last() == t {
            seq![u]
        } else {
            Seq::empty()
        }
    }
}

/// Counting one more element of a prefix of a row.
pub proof fn lemma_row_hits_step(row: Seq<usize>, t: usize, u: int, j: int)
    requires
        0 <= j < row.len(),
    ensures
        row_hits(row.take(j + 1), t, u) == if row[j] == t {
            row_hits(row.take(j), t, u).push(u)
        } else {
            row_hits(row.take(j), t, u)
        },
{
    assert(row.take(j + 1).drop_last() =~= row.take(j));
    assert(row.take(j + 1).last() == row[j]);
    assert(row_hits(row.take(j), t, u) + Seq::<int>::empty() =~= row_hits(row.take(j), t, u));
    assert(row_hits(row.take(j), t, u) + seq![u] =~= row_hits(row.take(j), t, u).push(u));
}

pub open spec fn as_ints(s: Seq<usize>) -> Seq<int> {
    s.map_values(|x: usize| x as int)
}

/// For each node, the nodes whose lists hold it, once per occurrence, in
/// the order of the lists.
pub fn reverse_lists(deps: &Vec<Vec<usize>>) -> (r: Vec<Vec<usize>>)
    requires
        edges_within(adj(deps@)),
    ensures
        r@.len() == deps@.len(),
        forall|t: int| 0 <= t < r@.len() ==> as_ints(#[trigger] adj(r@)[t]) == incoming(adj(deps@), t as usize, deps@.len() as int),
        edges_within(adj(r@)),
        forall|u: int, t: usize| 0 <= u < deps@.len() && #[trigger] adj(deps@)[u].contains(t) ==> adj(r@)[t as int].contains(u as usize),
{
    let ghost g = adj(deps@);
    let n = deps.len();
    let mut rev: Vec<Vec<usize>> = Vec::new();
    let mut k: usize = 0;
    while k < n
        invariant
            k <= n,
            rev@.len() == k,
            forall|t: int| 0 <= t < k ==> (#[trigger] rev@[t])@ == Seq::<usize>::empty(),
        decreases n - k,
    {
        rev.push(Vec::new());
        k = k + 1;
    }
    let mut u: usize = 0;
    proof {
        assert forall|t: int| 0 <= t < n implies as_ints(#[trigger] adj(rev@)[t]) == incoming(g, t as usize, 0) by {
            assert(as_ints(adj(rev@)[t]) =~= Seq::<int>::empty());
        }
    }
    while u < n
        invariant
            n == deps@.len(),
            g == adj(deps@),
            edges_within(g),
            u <= n,
            rev@.len() == n,
            forall|t: int| 0 <= t < n ==> as_ints(#[trigger] adj(rev@)[t]) == incoming(g, t as usize, u as int),
            forall|t: int, b: int| 0 <= t < n && 0 <= b < adj(rev@)[t].len() ==> (#[trigger] adj(rev@)[t][b]) < u,
            forall|a: int, t: usize| 0 <= a < u && #[trigger] g[a].contains(t) ==> adj(rev@)[t as int].contains(a as usize),
        decreases n - u,
    {
        let m = deps[u].len();
        let mut j: usize = 0;
        proof {
            assert(deps@[u as int]@ == g[u as int]);
            assert forall|t: int| 0 <= t < n implies as_ints(#[trigger] adj(rev@)[t]) == incoming(g, t as usize, u as int)
                + row_hits(g[u as int].take(0), t as usize, u as int) by {
                assert(row_hits(g[u as int].take(0), t as usize, u as int) =~= Seq::<int>::empty());
                assert(incoming(g, t as usize, u as int) + Seq::<int>::empty() =~= incoming(g, t as usize, u as int));
            }
        }
        while j < m
            invariant
                n == deps@.len(),
                g == adj(deps@),
                edges_within(g),
                u < n,
                m == g[u as int].len(),
                j <= m,
                rev@.len() == n,
                forall|t: int| 0 <= t < n ==> as_ints(#[trigger] adj(rev@)[t]) == incoming(g, t as usize, u as int)
                    + row_hits(g[u as int].take(j as int), t as usize, u as int),
                forall|t: int, b: int| 0 <= t < n && 0 <= b < adj(rev@)[t].len() ==> (#[trigger] adj(rev@)[t][b]) <= u,
                forall|a: int, t: usize| 0 <= a < u && #[trigger] g[a].contains(t) ==> adj(rev@)[t as int].contains(a as usize),
                forall|q: int| 0 <= q < j ==> adj(rev@)[#[trigger] g[u as int][q] as int].contains(u),
            decreases m - j,
        {
            let t = deps[u][j];
            proof {
                assert(g[u as int][j as int] == t);
                assert(t < n);
            }
            let mut l = rev[t].clone();
            let ghost lb = l@;
            l.push(u);
            let ghost rb = rev@;
            rev.set(t, l);
            proof {
                assert forall|t2: int| 0 <= t2 < n implies as_ints(#[trigger] adj(rev@)[t2]) == incoming(g, t2 as usize, u as int)
                    + row_hits(g[u as int].take(j + 1), t2 as usize, u as int) by {
                    lemma_row_hits_step(g[u as int], t2 as usize, u as int, j as int);
                    if t2 == t as int {
                        assert(lb =~= adj(rb)[t2]);
                        assert(adj(rev@)[t2] =~= lb.push(u));
                        assert(as_ints(lb.push(u)) =~= as_ints(lb).push(u as int));
                    } else {
                        assert(adj(rev@)[t2] == adj(rb)[t2]);
                    }
                }
                assert forall|t2: int, b: int| 0 <= t2 < n && 0 <= b < adj(rev@)[t2].len() implies (#[trigger] adj(rev@)[t2][b]) <= u by {
                    if t2 == t as int {
                        if b < lb.len() {
                            assert(adj(rev@)[t2][b] == adj(rb)[t2][b]);
                        }
                    } else {
                        assert(adj(rev@)[t2] == adj(rb)[t2]);
                    }
                }
                assert forall|a: int, t2: usize| 0 <= a < u && #[trigger] g[a].contains(t2) implies adj(rev@)[t2 as int].contains(a as usize) by {
                    assert(adj(rb)[t2 as int].contains(a as usize));
                    if t2 == t {
                        let z = choose|z: int| 0 <= z < lb.len() && lb[z] == a as usize;
                        assert(adj(rev@)[t2 as int][z] == a as usize);
                    }
                }
                assert forall|q: int| 0 <= q < j + 1 implies adj(rev@)[#[trigger] g[u as int][q] as int].contains(u) by {
                    let t2 = g[u as int][q];
                    if q < j {
                        assert(adj(rb)[t2 as int].contains(u));
                        if t2 == t {
                            let z = choose|z: int| 0 <= z < lb.len() && lb[z] == u;
                            assert(adj(rev@)[t2 as int][z] == u);
                        }
                    } else {
                        assert(adj(rev@)[t as int][lb.len() as int] == u);
                    }
                }
            }
            j = j + 1;
        }
        proof {
            assert(g[u as int].take(m as int) =~= g[u as int]);
            assert forall|t: int| 0 <= t < n implies as_ints(#[trigger] adj(rev@)[t]) == incoming(g, t as usize, u + 1) by {
                assert(incoming(g, t as usize, u + 1) == incoming(g, t as usize, u as int) + row_hits(g[u as int], t as usize, u as int));
            }
            assert forall|a: int, t: usize| 0 <= a < u + 1 && #[trigger] g[a].contains(t) implies adj(rev@)[t as int].contains(a as usize) by {
                if a == u as int {
                    let q = choose|q: int| 0 <= q < g[a].len() && g[a][q] == t;
                }
            }
            assert forall|t: int, b: int| 0 <= t < n && 0 <= b < adj(rev@)[t].len() implies (#[trigger] adj(rev@)[t][b]) < u + 1 by {}
        }
        u = u + 1;
    }
    rev
}

/// Each entry of the hits of `t` in `row` is `u`, and `row` holds `t`.
proof fn lemma_row_hits_member(row: Seq<usize>, t: usize, u: int, i: int)
    requires
        0 <= i < row_hits(row, t, u).len(),
    ensures
        row_hits(row, t, u)[i] == u,
        row.contains(t),
    decreases row.len(),
{
    let p = row_hits(row.drop_last(), t, u);
    if i < p.len() {
        lemma_row_hits_member(row.drop_last(), t, u, i);
        assert(row_hits(row, t, u)[i] == p[i]);
        let k = choose|k: int| 0 <= k < row.drop_last().len() && row.drop_last()[k] == t;
        assert(row[k] == t);
    } else {
        assert(row.last() == t);
        assert(row[row.len() - 1] == t);
    }
}

/// The nodes listed as leading to `t` are nodes below `upto` whose lists
/// hold `t`.
proof fn lemma_incoming_member(g: Seq<Seq<usize>>, t: usize, upto: int, i: int)
    requires
        0 <= i < incoming(g, t, upto).len(),
        upto <= g.len(),
    ensures
        0 <= incoming(g, t, upto)[i] < upto,
        g[incoming(g, t, upto)[i]].contains(t),
    decreases upto,
{
    if upto > 0 {
        let p = incoming(g, t, upto - 1);
        if i < p.len() {
            lemma_incoming_member(g, t, upto - 1, i);
            assert(incoming(g, t, upto)[i] == p[i]);
        } else {
            lemma_row_hits_member(g[upto - 1], t, upto - 1, i - p.len());
            assert(incoming(g, t, upto)[i] == row_hits(g[upto - 1], t, upto - 1)[i - p.len()]);
        }
    }
}

/// Along a walk the rank does not go up.
proof fn lemma_path_rank(g: Seq<Seq<usize>>, rank: Seq<int>, p: Seq<usize>)
    requires
        ranked(g, rank),
        edges_within(g),
        is_path(g, p),
        (p[0] as int) < g.len(),
    ensures
        rank[p.last() as int] <= rank[p[0] as int],
    decreases p.len(),
{
    if p.len() > 1 {
        let q = p.drop_first();
        assert(g[p[0] as int].contains(p[1]));
        let j = choose|j: int| 0 <= j < g[p[0] as int].len() && g[p[0] as int][j] == p[1];
        assert(rank[g[p[0] as int][j] as int] < rank[p[0] as int]);
        assert forall|i: int, k: int| 0 <= i && k == i + 1 && k < q.len() implies #[trigger] g[q[i] as int].contains(#[trigger] q[k]) by {
            assert(q[i] == p[i + 1] && q[k] == p[k + 1]);
        }
        lemma_path_rank(g, rank, q);
        assert(q.last() == p.last());
    }
}

/// When `g` has no cycle, breaking cycles removes no edge: the cut lists
/// keep every edge, and the reverse of `g` is exactly their reverse.
proof fn lemma_nothing_cut(g0: Seq<Seq<usize>>, cut: Seq<Seq<usize>>, rv: Seq<Seq<usize>>, removed: Seq<(usize, usize)>)
    requires
        acyclic(g0),
        edges_within(g0),
        g0.len() <= usize::MAX,
        cut.len() == g0.len(),
        rv.len() == g0.len(),
        forall|u: usize| (u as int) < g0.len() ==> #[trigger] cut[u as int] == g0[u as int].filter(|t: usize| !removed.contains((u, t))),
        forall|i: int|
            0 <= i < removed.len() ==> {
                let e = #[trigger] removed[i];
                &&& (e.0 as int) < g0.len()
                &&& g0[e.0 as int].contains(e.1)
                &&& reaches(g0, e.1, e.0)
            },
        forall|t: int| 0 <= t < rv.len() ==> as_ints(#[trigger] rv[t]) == incoming(g0, t as usize, g0.len() as int),
    ensures
        forall|w: usize, t: usize| (w as int) < g0.len() && #[trigger] g0[w as int].contains(t) ==> cut[w as int].contains(t),
        reverse_exact(cut, rv),
{
    let rank = choose|rank: Seq<int>| ranked(g0, rank);
    if removed.len() > 0 {
        let e = removed[0];
        assert((e.0 as int) < g0.len() && g0[e.0 as int].contains(e.1) && reaches(g0, e.1, e.0));
        let path = choose|path: Seq<usize>| #[trigger] is_path(g0, path) && path[0] == e.1 && path.last() == e.0;
        let j = choose|j: int| 0 <= j < g0[e.0 as int].len() && g0[e.0 as int][j] == e.1;
        assert(rank[g0[e.0 as int][j] as int] < rank[e.0 as int]);
        lemma_path_rank(g0, rank, path);
        assert(false);
    }
    assert forall|w: usize, t: usize| (w as int) < g0.len() && #[trigger] g0[w as int].contains(t) implies cut[w as int].contains(t) by {
        let pred = |t2: usize| !removed.contains((w, t2));
        assert(cut[w as int] == g0[w as int].filter(pred));
        assert(pred(t));
        g0[w as int].lemma_filter_contains_rev(pred, t);
    }
    assert forall|t: int, i: int| 0 <= t < rv.len() && 0 <= i < rv[t].len() implies (#[trigger] rv[t][i] as int) < cut.len()
        && cut[rv[t][i] as int].contains(t as usize) by {
        assert(as_ints(rv[t]) == incoming(g0, t as usize, g0.len() as int));
        assert(as_ints(rv[t])[i] == rv[t][i] as int);
        lemma_incoming_member(g0, t as usize, g0.len() as int, i);
        let w = rv[t][i];
        assert(g0[w as int].contains(t as usize));
    }
}

/// `cut` is `g` with the edges in `removed` taken out, and each removed
/// edge closes a cycle of `g`.
pub open spec fn cut_by(g: Seq<Seq<usize>>, cut: Seq<Seq<usize>>, removed: Seq<(usize, usize)>) -> bool {
    &&& forall|u: usize|
        (u as int) < g.len() ==> #[trigger] cut[u as int] == g[u as int].filter(|t: usize| !removed.contains((u, t)))
    &&& forall|i: int| 0 <= i < removed.len() ==> reaches(g, (#[trigger] removed[i]).1, removed[i].0)
}

/// The lists after breaking cycles, and the level of each node: the
/// structure of the hierarchical layout of `deps`. When `deps` has no cycle,
/// every edge leads at least one level down.
pub fn hierarchical_levels(deps: &Vec<Vec<usize>>) -> (r: (Vec<Vec<usize>>, Vec<usize>))
    requires
        edges_within(adj(deps@)),
    ensures
        r.0@.len() == deps@.len(),
        acyclic(adj(r.0@)),
        exists|removed: Seq<(usize, usize)>| #[trigger] cut_by(adj(deps@), adj(r.0@), removed),
        r.1@.len() == deps@.len(),
        forall|x: int| 0 <= x < r.1@.len() ==> #[trigger] r.1@[x] < r.1@.len(),
        forall|x: int| 0 <= x < r.1@.len() && incoming(adj(deps@), x as usize, deps@.len() as int).len() == 0 ==> #[trigger] r.1@[x] == 0,
        forall|t: int|
            0 <= t < r.1@.len() && #[trigger] r.1@[t] > 0 ==> exists|u: int|
                0 <= u < r.1@.len() && #[trigger] r.0@[u]@.contains(t as usize) && r.1@[t] <= r.1@[u] + 1,
        acyclic(adj(deps@)) ==> forall|u: int, t: usize|
            0 <= u < r.1@.len() && #[trigger] deps@[u]@.contains(t) ==> r.1@[t as int] >= r.1@[u] + 1,
{
    let rev = reverse_lists(deps);
    let mut cut = deps.clone();
    proof {
        assert(adj(cut@) =~= adj(deps@)) by {
            assert forall|i: int| 0 <= i < cut@.len() implies adj(cut@)[i] == adj(deps@)[i] by {}
        }
    }
    let removed = break_cycles(&mut cut);
    proof {
        assert forall|u: int, j: int| 0 <= u < adj(cut@).len() && 0 <= j < adj(cut@)[u].len() implies (#[trigger] adj(cut@)[u][j]) < adj(cut@).len() by {
            let uu = u as usize;
            assert(uu as int == u);
            assert(adj(cut@)[uu as int] == adj(deps@)[uu as int].filter(|t2: usize| !removed@.contains((uu, t2))));
            lemma_filter_member(adj(deps@)[u], |t2: usize| !removed@.contains((uu, t2)), j);
        }
        assert forall|u: int, t: usize| 0 <= u < cut@.len() && #[trigger] cut@[u]@.contains(t) implies rev@[t as int]@.contains(u as usize) by {
            let uu = u as usize;
            assert(uu as int == u);
            assert(adj(cut@)[uu as int] == adj(deps@)[uu as int].filter(|t2: usize| !removed@.contains((uu, t2))));
            let q = choose|q: int| 0 <= q < cut@[u]@.len() && cut@[u]@[q] == t;
            lemma_filter_member(adj(deps@)[u], |t2: usize| !removed@.contains((uu, t2)), q);
        }
        assert forall|x: int| 0 <= x < deps@.len() implies (as_ints(adj(rev@)[x]).len() == adj(rev@)[x].len()) by {}
    }
    proof {
        if acyclic(adj(deps@)) {
            lemma_nothing_cut(adj(deps@), adj(cut@), adj(rev@), removed@);
        }
    }
    let levels = assign_levels(&cut, &rev);
    proof {
        assert forall|x: int| 0 <= x < levels@.len() && incoming(adj(deps@), x as usize, deps@.len() as int).len() == 0 implies #[trigger] levels@[x] == 0 by {
            assert(as_ints(adj(rev@)[x]) == incoming(adj(deps@), x as usize, deps@.len() as int));
            assert(rev@[x]@.len() == 0);
        }
        assert forall|i: int| 0 <= i < removed@.len() implies reaches(adj(deps@), (#[trigger] removed@[i]).1, removed@[i].0) by {}
        assert(cut_by(adj(deps@), adj(cut@), removed@));
        assert forall|t: int|
            0 <= t < levels@.len() && #[trigger] levels@[t] > 0 implies exists|u: int|
                0 <= u < levels@.len() && #[trigger] cut@[u]@.contains(t as usize) && levels@[t] <= levels@[u] + 1 by {
            assert(levels@[t] > 0);
        }
    }
    let r = (cut, levels);
    proof {
        if acyclic(adj(deps@)) {
            assert forall|u: int, t: usize| 0 <= u < r.1@.len() && #[trigger] deps@[u]@.contains(t) implies r.1@[t as int] >= r.1@[u] + 1 by {
                let uu = u as usize;
                assert(uu as int == u);
                assert(adj(deps@)[uu as int].contains(t));
                assert(adj(cut@)[uu as int].contains(t));
                assert(cut@[u]@.contains(t));
            }
        }
        assert forall|t: int|
            0 <= t < r.1@.len() && #[trigger] r.1@[t] > 0 implies exists|u: int|
                0 <= u < r.1@.len() && #[trigger] r.0@[u]@.contains(t as usize) && r.1@[t] <= r.1@[u] + 1 by {
            assert(r.1@[t] == levels@[t]);
            assert(levels@[t] > 0);
            let u = choose|u: int| 0 <= u < levels@.len() && #[trigger] cut@[u]@.contains(t as usize) && levels@[t] <= levels@[u] + 1;
            assert(r.0@[u] == cut@[u]);
        }
    }
    r
}


/// The nodes below `upto` whose level is `l`, in increasing order.
pub open spec fn members(lv: Seq<usize>, l: usize, upto: int) -> Seq<usize>
    decreases upto,
{
    if upto <= 0 {
        Seq::empty()
    } else {
        members(lv, l, upto - 1) + if lv[upto - 1] == l {
            seq![(upto - 1) as usize]
        } else {
            Seq::empty()
        }
    }
}

/// `members` holds exactly the nodes below `upto` at level `l`.
pub proof fn lemma_members(lv: Seq<usize>, l: usize, upto: int)
    requires
        0 <= upto <= lv.len(),
        upto <= usize::MAX + 1,
    ensures
        forall|k: int| 0 <= k < members(lv, l, upto).len() ==> (#[trigger] members(lv, l, upto)[k]) < upto && lv[members(lv, l, upto)[k] as int] == l,
        forall|x: int| 0 <= x < upto && lv[x] == l ==> #[trigger] members(lv, l, upto).contains(x as usize),
    decreases upto,
{
    if upto > 0 {
        lemma_members(lv, l, upto - 1);
        let m = members(lv, l, upto - 1);
        if lv[upto - 1] == l {
            assert(members(lv, l, upto) =~= m.push((upto - 1) as usize));
            assert forall|x: int| 0 <= x < upto && lv[x] == l implies #[trigger] members(lv, l, upto).contains(x as usize) by {
                if x < upto - 1 {
                    assert(m.contains(x as usize));
                    let k = choose|k: int| 0 <= k < m.len() && m[k] == x as usize;
                    assert(members(lv, l, upto)[k] == m[k]);
                    assert(members(lv, l, upto)[k] == x as usize);
                } else {
                    assert(members(lv, l, upto)[m.len() as int] == x as usize);
                }
            }
        } else {
            assert(members(lv, l, upto) =~= m);
        }
    }
}

/// Some entry of `r` is for level `l`.
pub open spec fn level_listed(r: Seq<(usize, Vec<usize>)>, l: usize) -> bool {
    exists|i: int| 0 <= i < r.len() && (#[trigger] r[i]).0 == l
}

/// The levels that occur, in increasing order, each with its nodes in
/// increasing order.
pub fn nodes_by_level(levels: &Vec<usize>) -> (r: Vec<(usize, Vec<usize>)>)
    requires
        forall|x: int| 0 <= x < levels@.len() ==> #[trigger] levels@[x] < levels@.len(),
    ensures
        forall|i: int, j: int| 0 <= i < j < r@.len() ==> (#[trigger] r@[i]).0 < (#[trigger] r@[j]).0,
        forall|i: int| 0 <= i < r@.len() ==> (#[trigger] r@[i]).1@ == members(levels@, r@[i].0, levels@.len() as int),
        forall|i: int| 0 <= i < r@.len() ==> (#[trigger] r@[i]).1@.len() > 0,
        forall|x: int| 0 <= x < levels@.len() ==> level_listed(r@, #[trigger] levels@[x]),
{
    let n = levels.len();
    let mut r: Vec<(usize, Vec<usize>)> = Vec::new();
    let mut l: usize = 0;
    while l < n
        invariant
            n == levels@.len(),
            l <= n,
            forall|x: int| 0 <= x < n ==> #[trigger] levels@[x] < n,
            forall|i: int, j: int| 0 <= i < j < r@.len() ==> (#[trigger] r@[i]).0 < (#[trigger] r@[j]).0,
            forall|i: int| 0 <= i < r@.len() ==> (#[trigger] r@[i]).0 < l,
            forall|i: int| 0 <= i < r@.len() ==> (#[trigger] r@[i]).1@ == members(levels@, r@[i].0, n as int),
            forall|i: int| 0 <= i < r@.len() ==> (#[trigger] r@[i]).1@.len() > 0,
            forall|x: int| 0 <= x < n && levels@[x] < l ==> level_listed(r@, #[trigger] levels@[x]),
        decreases n - l,
    {
        let mut group: Vec<usize> = Vec::new();
        let mut x: usize = 0;
        while x < n
            invariant
                n == levels@.len(),
                x <= n,
                group@ == members(levels@, l, x as int),
            decreases n - x,
        {
            if levels[x] == l {
                group.push(x);
            }
            proof {
                if levels@[x as int] == l {
                    assert(members(levels@, l, x + 1) =~= members(levels@, l, x as int).push(x));
                } else {
                    assert(members(levels@, l, x + 1) =~= members(levels@, l, x as int));
                }
            }
            x = x + 1;
        }
        let ghost rb = r@;
        proof {
            lemma_members(levels@, l, n as int);
        }
        if group.len() > 0 {
            r.push((l, group));
            proof {
                assert forall|x: int| 0 <= x < n && levels@[x] < l + 1 implies level_listed(r@, #[trigger] levels@[x]) by {
                    if levels@[x] < l {
                        assert(level_listed(rb, levels@[x]));
                        let i = choose|i: int| 0 <= i < rb.len() && (#[trigger] rb[i]).0 == levels@[x];
                        assert(r@[i] == rb[i]);
                    } else {
                        assert(r@[rb.len() as int].0 == levels@[x]);
                    }
                }
            }
        } else {
            proof {
                assert forall|x: int| 0 <= x < n && levels@[x] < l + 1 implies level_listed(r@, #[trigger] levels@[x]) by {
                    if levels@[x] == l {
                        assert(members(levels@, l, n as int).contains(x as usize));
                    }
                }
            }
        }
        l = l + 1;
    }
    proof {
        assert forall|x: int| 0 <= x < levels@.len() implies level_listed(r@, #[trigger] levels@[x]) by {
            assert(levels@[x] < l);
        }
    }
    r
}

} // verus!

//! Levels of a dependency graph: a module with no dependencies is at level
//! 0, any other one level above its deepest dependency; a dependency cycle
//! has no levels and is reported through one of its nodes.
use vstd::prelude::*;

verus! {

/// Every dependency names a node of the graph.
pub open spec fn graph_ok(adj: Seq<Seq<usize>>) -> bool {
    forall|i: int, k: int| 0 <= i < adj.len() && 0 <= k < adj[i].len() ==> #[trigger] adj[i][k]
        < adj.len()
}

/// `w` follows dependency edges from each node to the next.
pub open spec fn is_walk(adj: Seq<Seq<usize>>, w: Seq<usize>) -> bool {
    &&& forall|k: int| 0 <= k < w.len() ==> #[trigger] w[k] < adj.len()
    &&& forall|k: int| 0 <= k < w.len() - 1 ==> adj[#[trigger] w[k] as int].contains(w[k + 1])
}

/// `w` is a closed walk that starts at `x`.
pub open spec fn is_cycle_at(adj: Seq<Seq<usize>>, w: Seq<usize>, x: usize) -> bool {
    &&& w.len() > 0
    &&& w[0] == x
    &&& is_walk(adj, w)
    &&& adj[w.last() as int].contains(x)
}

/// Node `x` lies on a dependency cycle.
pub open spec fn on_cycle(adj: Seq<Seq<usize>>, x: usize) -> bool {
    exists|w: Seq<usize>| is_cycle_at(adj, w, x)
}

/// The graph has a dependency cycle.
pub open spec fn has_cycle(adj: Seq<Seq<usize>>) -> bool {
    exists|x: usize| x < adj.len() && on_cycle(adj, x)
}

/// The deepest level among the dependencies `ds` (0 for none).
pub open spec fn max_level(ds: Seq<usize>, levels: Seq<usize>) -> nat
    decreases ds.len(),
{
    if ds.len() == 0 {
        0
    } else {
        let m = max_level(ds.drop_last(), levels);
        let l = levels[ds.last() as int] as nat;
        if l >= m {
            l
        } else {
            m
        }
    }
}

/// The level node `i` must have given the levels of its dependencies.
pub open spec fn level_of(adj: Seq<Seq<usize>>, levels: Seq<usize>, i: int) -> nat {
    if adj[i].len() == 0 {
        0
    } else {
        1 + max_level(adj[i], levels)
    }
}

/// `levels` gives every node the level its dependencies call for.
pub open spec fn levels_ok(adj: Seq<Seq<usize>>, levels: Seq<usize>) -> bool {
    &&& levels.len() == adj.len()
    &&& forall|i: int| 0 <= i < adj.len() ==> #[trigger] levels[i] == level_of(adj, levels, i)
}

// ---------------------------------------------------------------------
// Lemmas
// ---------------------------------------------------------------------

/// The deepest dependency level is at least the level of each dependency.
pub proof fn lemma_max_level_ge(ds: Seq<usize>, levels: Seq<usize>, k: int)
    requires
        0 <= k < ds.len(),
    ensures
        max_level(ds, levels) >= levels[ds[k] as int],
    decreases ds.len(),
{
    if k < ds.len() - 1 {
        lemma_max_level_ge(ds.drop_last(), levels, k);
    }
}

proof fn lemma_max_level_same(ds: Seq<usize>, l1: Seq<usize>, l2: Seq<usize>)
    requires
        forall|k: int| 0 <= k < ds.len() ==> l1[#[trigger] ds[k] as int] == l2[ds[k] as int],
    ensures
        max_level(ds, l1) == max_level(ds, l2),
    decreases ds.len(),
{
    if ds.len() > 0 {
        lemma_max_level_same(ds.drop_last(), l1, l2);
        assert(l1[ds.last() as int] == l2[ds.last() as int]);
    }
}

proof fn lemma_max_level_bound(ds: Seq<usize>, levels: Seq<usize>, b: nat)
    requires
        forall|k: int| 0 <= k < ds.len() ==> levels[#[trigger] ds[k] as int] < b,
    ensures
        ds.len() > 0 ==> max_level(ds, levels) < b,
    decreases ds.len(),
{
    if ds.len() > 0 {
        let dl = ds.drop_last();
        assert forall|k: int| 0 <= k < dl.len() implies levels[#[trigger] dl[k] as int] < b by {
            assert(dl[k] == ds[k]);
        }
        lemma_max_level_bound(dl, levels, b);
        assert(ds.last() == ds[ds.len() - 1]);
        assert(levels[ds.last() as int] < b);
        if dl.len() == 0 {
            assert(max_level(dl, levels) == 0);
        }
        assert(max_level(ds, levels) == (if levels[ds.last() as int] as nat >= max_level(dl, levels) {
            levels[ds.last() as int] as nat
        } else {
            max_level(dl, levels)
        }));
    }
}

/// A level is above the level of each of the node's dependencies.
pub proof fn lemma_level_above_dependency(adj: Seq<Seq<usize>>, levels: Seq<usize>, i: int, k: int)
    requires
        levels_ok(adj, levels),
        0 <= i < adj.len(),
        0 <= k < adj[i].len(),
        adj[i][k] < adj.len(),
    ensures
        levels[i] > levels[adj[i][k] as int],
{
    lemma_max_level_ge(adj[i], levels, k);
    assert(levels[i] == level_of(adj, levels, i));
}

/// Levels as the equations define them exist only for graphs without a
/// cycle.
pub proof fn lemma_levels_exclude_cycle(adj: Seq<Seq<usize>>, levels: Seq<usize>)
    requires
        levels_ok(adj, levels),
    ensures
        !has_cycle(adj),
{
    if has_cycle(adj) {
        let x = choose|x: usize| x < adj.len() && on_cycle(adj, x);
        let w = choose|w: Seq<usize>| is_cycle_at(adj, w, x);
        // along the walk the level falls by at least one at each step
        assert forall|k: int| 0 <= k < w.len() implies levels[w[0] as int] >= levels[#[trigger] w[k] as int]
            + k by {
            lemma_walk_descends(adj, levels, w, k);
        }
        let last = w.last();
        assert(levels[w[0] as int] >= levels[last as int] + (w.len() - 1));
        let a = adj[last as int];
        let j = choose|j: int| 0 <= j < a.len() && #[trigger] a[j] == x;
        lemma_level_above_dependency(adj, levels, last as int, j);
        assert(false);
    }
}

proof fn lemma_walk_descends(adj: Seq<Seq<usize>>, levels: Seq<usize>, w: Seq<usize>, k: int)
    requires
        levels_ok(adj, levels),
        is_walk(adj, w),
        0 <= k < w.len(),
    ensures
        levels[w[0] as int] >= levels[w[k] as int] + k,
    decreases k,
{
    if k > 0 {
        lemma_walk_descends(adj, levels, w, k - 1);
        assert(w[k - 1] < adj.len());
        assert(adj[w[k - 1] as int].contains(w[k]));
        let a = adj[w[k - 1] as int];
        let j = choose|j: int| 0 <= j < a.len() && #[trigger] a[j] == w[k];
        lemma_level_above_dependency(adj, levels, w[k - 1] as int, j);
    }
}

/// Number of entries of `s` equal to `v`.
pub open spec fn count_eq(s: Seq<u8>, v: u8) -> nat
    decreases s.len(),
{
    if s.len() == 0 {
        0
    } else {
        count_eq(s.drop_last(), v) + if s.last() == v {
            1nat
        } else {
            0nat
        }
    }
}

proof fn lemma_count_le_len(s: Seq<u8>, v: u8)
    ensures
        count_eq(s, v) <= s.len(),
    decreases s.len(),
{
    if s.len() > 0 {
        lemma_count_le_len(s.drop_last(), v);
    }
}

proof fn lemma_count_update(s: Seq<u8>, i: int, w: u8, v: u8)
    requires
        0 <= i < s.len(),
    ensures
        count_eq(s.update(i, w), v) + (if s[i] == v {
            1nat
        } else {
            0nat
        }) == count_eq(s, v) + (if w == v {
            1nat
        } else {
            0nat
        }),
    decreases s.len(),
{
    let t = s.update(i, w);
    if i < s.len() - 1 {
        assert(t.drop_last() == s.drop_last().update(i, w));
        lemma_count_update(s.drop_last(), i, w, v);
    } else {
        assert(t.drop_last() == s.drop_last());
    }
}

proof fn lemma_count_mono(s1: Seq<u8>, s2: Seq<u8>)
    requires
        s1.len() == s2.len(),
        forall|i: int| 0 <= i < s2.len() && s2[i] == 0 ==> s1[i] == 0,
    ensures
        count_eq(s2, 0) <= count_eq(s1, 0),
    decreases s1.len(),
{
    if s1.len() > 0 {
        lemma_count_mono(s1.drop_last(), s2.drop_last());
    }
}

// ---------------------------------------------------------------------
// The search
// ---------------------------------------------------------------------

/// Marks used by the depth-first search: 0 unvisited, 1 on the current
/// path, 2 finished.
pub open spec fn search_inv(
    adj: Seq<Seq<usize>>,
    levels: Seq<usize>,
    state: Seq<u8>,
    stack: Seq<usize>,
) -> bool {
    &&& graph_ok(adj)
    &&& levels.len() == adj.len()
    &&& state.len() == adj.len()
    &&& forall|v: int| 0 <= v < state.len() ==> #[trigger] state[v] <= 2
    &&& forall|v: int|
        0 <= v < state.len() && #[trigger] state[v] == 2 ==> {
            &&& levels[v] == level_of(adj, levels, v)
            &&& (levels[v] as nat) < count_eq(state, 2)
            &&& forall|k: int| 0 <= k < adj[v].len() ==> state[#[trigger] adj[v][k] as int] == 2
        }
    &&& forall|v: usize| v < state.len() ==> (#[trigger] state[v as int] == 1 <==> stack.contains(v))
    &&& is_walk(adj, stack)
}

/// What a finished search step keeps: finished nodes stay finished with
/// their levels, the path marks are unchanged, and nothing becomes
/// unvisited again.
pub open spec fn search_kept(
    old_levels: Seq<usize>,
    old_state: Seq<u8>,
    levels: Seq<usize>,
    state: Seq<u8>,
) -> bool {
    &&& state.len() == old_state.len()
    &&& levels.len() == old_levels.len()
    &&& forall|v: int|
        #![trigger state[v]]
        #![trigger old_state[v]]
        0 <= v < state.len() && old_state[v] == 2 ==> state[v] == 2 && levels[v] == old_levels[v]
    &&& forall|v: int| 0 <= v < state.len() ==> (#[trigger] state[v] == 1 <==> old_state[v] == 1)
    &&& forall|v: int| 0 <= v < state.len() && #[trigger] state[v] == 0 ==> old_state[v] == 0
}

proof fn lemma_level_of_same(adj: Seq<Seq<usize>>, l1: Seq<usize>, l2: Seq<usize>, v: int)
    requires
        0 <= v < adj.len(),
        forall|k: int| 0 <= k < adj[v].len() ==> l1[#[trigger] adj[v][k] as int] == l2[adj[v][k] as int],
    ensures
        level_of(adj, l1, v) == level_of(adj, l2, v),
{
    lemma_max_level_same(adj[v], l1, l2);
}

proof fn lemma_kept_trans(
    l1: Seq<usize>,
    s1: Seq<u8>,
    l2: Seq<usize>,
    s2: Seq<u8>,
    l3: Seq<usize>,
    s3: Seq<u8>,
)
    requires
        search_kept(l1, s1, l2, s2),
        search_kept(l2, s2, l3, s3),
    ensures
        search_kept(l1, s1, l3, s3),
{
    assert forall|v: int| 0 <= v < s3.len() && s1[v] == 2 implies #[trigger] s3[v] == 2 && l3[v]
        == l1[v] by {
        assert(s2[v] == 2 && l2[v] == l1[v]);
        assert(s3[v] == 2 && l3[v] == l2[v]);
    }
    assert forall|v: int| 0 <= v < s3.len() implies (#[trigger] s3[v] == 1 <==> s1[v] == 1) by {
        assert(s2[v] == 1 <==> s1[v] == 1);
    }
    assert forall|v: int| 0 <= v < s3.len() && #[trigger] s3[v] == 0 implies s1[v] == 0 by {
        assert(s2[v] == 0);
    }
}

proof fn lemma_kept_refl(l: Seq<usize>, s: Seq<u8>)
    ensures
        search_kept(l, s, l, s),
{
}

/// Entering `cur`: it goes on the path.
proof fn lemma_enter(
    g: Seq<Seq<usize>>,
    lv: Seq<usize>,
    st: Seq<u8>,
    stack: Seq<usize>,
    cur: usize,
)
    requires
        search_inv(g, lv, st, stack),
        cur < g.len(),
        st[cur as int] == 0,
        stack.len() > 0 ==> g[stack.last() as int].contains(cur),
    ensures
        search_inv(g, lv, st.update(cur as int, 1), stack.push(cur)),
        count_eq(st.update(cur as int, 1), 0) < count_eq(st, 0),
        count_eq(st.update(cur as int, 1), 2) == count_eq(st, 2),
{
    let st1 = st.update(cur as int, 1);
    let path = stack.push(cur);
    lemma_count_update(st, cur as int, 1, 0);
    lemma_count_update(st, cur as int, 1, 2);
    assert forall|v: usize| v < st1.len() implies (#[trigger] st1[v as int] == 1 <==> path.contains(
        v,
    )) by {
        if v == cur {
            assert(path[path.len() - 1] == cur);
        } else {
            assert(st1[v as int] == st[v as int]);
            if path.contains(v) {
                let j = choose|j: int| 0 <= j < path.len() && path[j] == v;
                assert(j < stack.len());
                assert(stack[j] == v);
            }
            if stack.contains(v) {
                let j = choose|j: int| 0 <= j < stack.len() && stack[j] == v;
                assert(path[j] == v);
            }
        }
    }
    assert forall|k: int| 0 <= k < path.len() - 1 implies g[#[trigger] path[k] as int].contains(
        path[k + 1],
    ) by {
        if k < stack.len() - 1 {
            assert(path[k] == stack[k] && path[k + 1] == stack[k + 1]);
        } else {
            assert(path[k] == stack.last());
        }
    }
    assert forall|k: int| 0 <= k < path.len() implies #[trigger] path[k] < g.len() by {
        if k < stack.len() {
            assert(path[k] == stack[k]);
        }
    }
    assert forall|v: int| 0 <= v < st1.len() && #[trigger] st1[v] == 2 implies {
        &&& lv[v] == level_of(g, lv, v)
        &&& (lv[v] as nat) < count_eq(st1, 2)
        &&& forall|k: int| 0 <= k < g[v].len() ==> st1[#[trigger] g[v][k] as int] == 2
    } by {
        assert(st[v] == 2);
        assert forall|k: int| 0 <= k < g[v].len() implies st1[#[trigger] g[v][k] as int] == 2 by {
            assert(st[g[v][k] as int] == 2);
        }
    }
}

/// A dependency met again on the current path closes a cycle.
proof fn lemma_back_edge(
    g: Seq<Seq<usize>>,
    lv: Seq<usize>,
    st: Seq<u8>,
    path: Seq<usize>,
    cur: usize,
    k: int,
)
    requires
        search_inv(g, lv, st, path),
        path.len() > 0,
        path.last() == cur,
        cur < g.len(),
        0 <= k < g[cur as int].len(),
        st[g[cur as int][k] as int] == 1,
    ensures
        on_cycle(g, g[cur as int][k]),
{
    let d = g[cur as int][k];
    assert(path.contains(d));
    let j = choose|j: int| 0 <= j < path.len() && path[j] == d;
    let w = path.subrange(j, path.len() as int);
    assert(w[0] == d);
    assert(w.last() == cur);
    assert forall|q: int| 0 <= q < w.len() - 1 implies g[#[trigger] w[q] as int].contains(
        w[q + 1],
    ) by {
        assert(w[q] == path[j + q] && w[q + 1] == path[j + q + 1]);
    }
    assert forall|q: int| 0 <= q < w.len() implies #[trigger] w[q] < g.len() by {
        assert(w[q] == path[j + q]);
    }
    assert(g[cur as int].contains(d));
    assert(is_cycle_at(g, w, d));
}

proof fn lemma_leave_marks(st: Seq<u8>, stack: Seq<usize>, cur: usize)
    requires
        forall|v: usize| v < st.len() ==> (#[trigger] st[v as int] == 1 <==> stack.push(cur).contains(v)),
        cur < st.len(),
        !stack.contains(cur),
    ensures
        forall|v: usize|
            v < st.len() ==> (#[trigger] st.update(cur as int, 2)[v as int] == 1 <==> stack.contains(v)),
{
    let path = stack.push(cur);
    let st2 = st.update(cur as int, 2);
    assert forall|v: usize| v < st.len() implies (#[trigger] st2[v as int] == 1 <==> stack.contains(
        v,
    )) by {
        if v != cur {
            assert(st2[v as int] == st[v as int]);
            if st[v as int] == 1 {
                assert(path.contains(v));
                let j = choose|j: int| 0 <= j < path.len() && path[j] == v;
                if j == stack.len() {
                    assert(path[j] == cur);
                }
                assert(j < stack.len());
                assert(stack[j] == v);
            }
            if stack.contains(v) {
                let j = choose|j: int| 0 <= j < stack.len() && stack[j] == v;
                assert(path[j] == v);
            }
        }
    }
}

/// Leaving `cur` with all its dependencies finished: it is finished at
/// the level they call for.
proof fn lemma_leave(
    g: Seq<Seq<usize>>,
    lv: Seq<usize>,
    st: Seq<u8>,
    stack: Seq<usize>,
    cur: usize,
    lvl: usize,
)
    requires
        search_inv(g, lv, st, stack.push(cur)),
        cur < g.len(),
        st[cur as int] == 1,
        forall|q: int| 0 <= q < g[cur as int].len() ==> st[#[trigger] g[cur as int][q] as int] == 2,
        lvl == level_of(g, lv, cur as int),
        (lvl as nat) <= count_eq(st, 2),
        !stack.contains(cur),
    ensures
        search_inv(g, lv.update(cur as int, lvl), st.update(cur as int, 2), stack),
        count_eq(st.update(cur as int, 2), 0) == count_eq(st, 0),
{
    let path = stack.push(cur);
    let lv2 = lv.update(cur as int, lvl);
    let st2 = st.update(cur as int, 2);
    lemma_count_update(st, cur as int, 2, 2);
    lemma_count_update(st, cur as int, 2, 0);
    assert forall|q: int| 0 <= q < g[cur as int].len() implies lv[#[trigger] g[cur as int][q] as int]
        == lv2[g[cur as int][q] as int] by {
        assert(st[g[cur as int][q] as int] == 2);
    }
    lemma_level_of_same(g, lv, lv2, cur as int);
    assert forall|v: int| 0 <= v < st2.len() && #[trigger] st2[v] == 2 implies {
        &&& lv2[v] == level_of(g, lv2, v)
        &&& (lv2[v] as nat) < count_eq(st2, 2)
        &&& forall|q: int| 0 <= q < g[v].len() ==> st2[#[trigger] g[v][q] as int] == 2
    } by {
        if v != cur {
            assert(st[v] == 2);
            assert forall|q: int| 0 <= q < g[v].len() implies lv[#[trigger] g[v][q] as int]
                == lv2[g[v][q] as int] by {
                assert(st[g[v][q] as int] == 2);
            }
            lemma_level_of_same(g, lv, lv2, v);
        }
    }
    lemma_leave_marks(st, stack, cur);
    assert forall|q: int| 0 <= q < stack.len() - 1 implies g[#[trigger] stack[q] as int].contains(
        stack[q + 1],
    ) by {
        assert(path[q] == stack[q] && path[q + 1] == stack[q + 1]);
    }
    assert forall|q: int| 0 <= q < stack.len() implies #[trigger] stack[q] < g.len() by {
        assert(path[q] == stack[q]);
    }
}

#[verifier::spinoff_prover]
#[verifier::rlimit(40)]
fn visit(
    adj: &Vec<Vec<usize>>,
    cur: usize,
    levels: &mut Vec<usize>,
    state: &mut Vec<u8>,
    Ghost(stack): Ghost<Seq<usize>>,
) -> (r: Result<usize, usize>)
    requires
        search_inv(adj.deep_view(), old(levels)@, old(state)@, stack),
        cur < adj.len(),
        old(state)@[cur as int] == 0,
        stack.len() > 0 ==> adj.deep_view()[stack.last() as int].contains(cur),
    ensures
        r matches Ok(l) ==> {
            &&& search_inv(adj.deep_view(), final(levels)@, final(state)@, stack)
            &&& search_kept(old(levels)@, old(state)@, final(levels)@, final(state)@)
            &&& final(state)@[cur as int] == 2
            &&& final(levels)@[cur as int] == l
        },
        r matches Err(x) ==> x < adj.len() && on_cycle(adj.deep_view(), x),
    decreases count_eq(old(state)@, 0),
{
    let ghost g = adj.deep_view();
    let ghost st0 = state@;
    let ghost lv0 = levels@;
    proof {
        lemma_enter(g, levels@, state@, stack, cur);
        assert(!stack.contains(cur));
    }
    state.set(cur, 1);
    let ghost path = stack.push(cur);
    let ghost st1 = state@;
    proof {
        lemma_kept_refl(lv0, st1);
    }
    let deps = &adj[cur];
    assert(deps@ == g[cur as int]);
    let mut max: usize = 0;
    let mut k: usize = 0;
    while k < deps.len()
        invariant
            g == adj.deep_view(),
            deps@ == g[cur as int],
            cur < adj.len(),
            k <= deps.len(),
            !stack.contains(cur),
            path == stack.push(cur),
            search_inv(g, levels@, state@, path),
            search_kept(lv0, st1, levels@, state@),
            state@[cur as int] == 1,
            forall|j: int| 0 <= j < k ==> state@[#[trigger] deps@[j] as int] == 2,
            max == max_level(deps@.take(k as int), levels@),
            count_eq(state@, 0) < count_eq(old(state)@, 0),
        decreases deps.len() - k,
    {
        let d = deps[k];
        assert(g[cur as int][k as int] == d);
        let ghost lv_before = levels@;
        let ghost st_before = state@;
        let l: usize;
        if state[d] == 1 {
            proof {
                lemma_back_edge(g, levels@, state@, path, cur, k as int);
            }
            return Err(d);
        } else if state[d] == 0 {
            match visit(adj, d, levels, state, Ghost(path)) {
                Ok(v) => {
                    l = v;
                },
                Err(x) => {
                    return Err(x);
                },
            }
            proof {
                lemma_count_mono(st_before, state@);
                lemma_kept_trans(lv0, st1, lv_before, st_before, levels@, state@);
            }
        } else {
            l = levels[d];
        }
        proof {
            assert forall|j: int| 0 <= j < k implies lv_before[#[trigger] deps@.take(k as int)[j] as int]
                == levels@[deps@.take(k as int)[j] as int] by {
                let v = deps@[j];
                assert(deps@.take(k as int)[j] == v);
                assert(st_before[v as int] == 2);
                assert(state@[v as int] == 2);
            }
            lemma_max_level_same(deps@.take(k as int), lv_before, levels@);
            assert(deps@.take(k + 1).drop_last() == deps@.take(k as int));
            assert(state@[d as int] == 2);
            assert forall|j: int| 0 <= j < k + 1 implies state@[#[trigger] deps@[j] as int] == 2 by {
                if j < k {
                    assert(st_before[deps@[j] as int] == 2);
                }
            }
        }
        if l >= max {
            max = l;
        }
        k += 1;
    }
    proof {
        assert(deps@.take(k as int) == deps@);
        let c2 = count_eq(state@, 2);
        assert forall|j: int| 0 <= j < deps@.len() implies levels@[#[trigger] deps@[j] as int]
            < c2 by {
            assert(state@[deps@[j] as int] == 2);
        }
        lemma_max_level_bound(deps@, levels@, c2);
        lemma_count_le_len(state@, 2);
    }
    let my_level = if deps.len() > 0 {
        max + 1
    } else {
        0
    };
    let ghost lv_pre = levels@;
    let ghost st_pre = state@;
    proof {
        lemma_leave(g, levels@, state@, stack, cur, my_level);
    }
    levels.set(cur, my_level);
    state.set(cur, 2);
    proof {
        assert forall|v: int| 0 <= v < state@.len() && st0[v] == 2 implies #[trigger] state@[v]
            == 2 && levels@[v] == lv0[v] by {
            assert(v != cur);
            assert(st1[v] == 2);
            assert(st_pre[v] == 2 && lv_pre[v] == lv0[v]);
        }
        assert forall|v: int| 0 <= v < state@.len() implies (#[trigger] state@[v] == 1 <==> st0[v]
            == 1) by {
            if v != cur {
                assert(st1[v] == st0[v]);
                assert(st_pre[v] == 1 <==> st1[v] == 1);
            }
        }
        assert forall|v: int| 0 <= v < state@.len() && #[trigger] state@[v] == 0 implies st0[v]
            == 0 by {
            assert(v != cur);
            assert(st_pre[v] == 0);
            assert(st1[v] == 0);
        }
        assert(search_kept(old(levels)@, old(state)@, levels@, state@));
        assert(search_inv(g, levels@, state@, stack));
    }
    Ok(my_level)
}

/// The level of every node, or a node on a dependency cycle.
pub fn compute_levels(adj: &Vec<Vec<usize>>) -> (r: Result<Vec<usize>, usize>)
    requires
        graph_ok(adj.deep_view()),
    ensures
        r matches Ok(levels) ==> levels_ok(adj.deep_view(), levels@),
        r matches Err(x) ==> x < adj.len() && on_cycle(adj.deep_view(), x),
{
    let ghost g = adj.deep_view();
    let n = adj.len();
    let mut levels: Vec<usize> = Vec::new();
    let mut state: Vec<u8> = Vec::new();
    let mut i: usize = 0;
    while i < n
        invariant
            n == adj.len(),
            i <= n,
            levels@.len() == i,
            state@.len() == i,
            forall|v: int| 0 <= v < i ==> levels@[v] == 0 && state@[v] == 0,
        decreases n - i,
    {
        levels.push(0);
        state.push(0);
        i += 1;
    }
    proof {
        assert forall|v: int| 0 <= v < state@.len() && #[trigger] state@[v] == 2 implies false by {}
        assert(is_walk(g, Seq::<usize>::empty()));
    }
    let mut v: usize = 0;
    while v < n
        invariant
            g == adj.deep_view(),
            n == adj.len(),
            v <= n,
            search_inv(g, levels@, state@, Seq::<usize>::empty()),
            forall|u: int| 0 <= u < v ==> #[trigger] state@[u] == 2,
        decreases n - v,
    {
        if state[v] == 0 {
            let ghost st_before = state@;
            match visit(adj, v, &mut levels, &mut state, Ghost(Seq::<usize>::empty())) {
                Ok(_) => {},
                Err(x) => {
                    return Err(x);
                },
            }
            assert forall|u: int| 0 <= u < v implies #[trigger] state@[u] == 2 by {
                assert(st_before[u] == 2);
            }
        } else {
            assert(state@[v as int] != 1);
        }
        v += 1;
    }
    proof {
        assert forall|u: int| 0 <= u < g.len() implies #[trigger] levels@[u] == level_of(
            g,
            levels@,
            u,
        ) by {
            assert(state@[u] == 2);
        }
    }
    Ok(levels)
}

} // verus!

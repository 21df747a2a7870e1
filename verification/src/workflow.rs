//! Cycles in a workflow graph: when a deterministic workflow is refused for
//! having a cycle, the answer names one, found by a depth-first search over
//! the node ids in order.

use vstd::prelude::*;
use crate::text::{insert_sorted, str_equals, strictly_sorted, texts};

verus! {

/// An edge of a workflow definition.
pub struct WorkflowEdge {
    pub from: String,
    pub to: String,
}

/// `a -> b` is an edge of the workflow between declared nodes.
pub open spec fn has_edge(nodes: Seq<Seq<char>>, edges: Seq<WorkflowEdge>, a: Seq<char>, b: Seq<char>) -> bool {
    &&& nodes.contains(a)
    &&& nodes.contains(b)
    &&& exists|k: int| 0 <= k < edges.len() && (#[trigger] edges[k]).from@ == a && edges[k].to@ == b
}

/// A closed path: it starts where it ends and follows edges.
pub open spec fn is_cycle(nodes: Seq<Seq<char>>, edges: Seq<WorkflowEdge>, p: Seq<Seq<char>>) -> bool {
    &&& p.len() >= 2
    &&& p[0] == p.last()
    &&& forall|i: int| 0 <= i < p.len() - 1 ==> has_edge(nodes, edges, #[trigger] p[i], p[i + 1])
}

/// Adjacency lists over node positions.
pub open spec fn adj_views(adj: Seq<Vec<usize>>) -> Seq<Seq<usize>> {
    adj.map_values(|v: Vec<usize>| v@)
}

pub open spec fn idx_edge(av: Seq<Seq<usize>>, u: int, w: int) -> bool {
    0 <= u < av.len() && av[u].contains(w as usize) && 0 <= w
}

pub open spec fn is_idx_cycle(av: Seq<Seq<usize>>, c: Seq<usize>) -> bool {
    &&& c.len() >= 2
    &&& c[0] == c.last()
    &&& forall|i: int| 0 <= i < c.len() - 1 ==> idx_edge(av, #[trigger] c[i] as int, c[i + 1] as int)
}

pub open spec fn adj_ok(av: Seq<Seq<usize>>) -> bool {
    forall|u: int, k: int| 0 <= u < av.len() && 0 <= k < av[u].len() ==> #[trigger] av[u][k] < av.len()
}

pub open spec fn distinct_idx(s: Seq<usize>) -> bool {
    forall|i: int, j: int| 0 <= i < j < s.len() ==> #[trigger] s[i] != #[trigger] s[j]
}

/// `w` was finished before the `i`-th finished node.
pub open spec fn finished_before(fin: Seq<usize>, i: int, w: usize) -> bool {
    exists|j: int| 0 <= j < i && #[trigger] fin[j] == w
}

/// The state of the depth-first search: mark 1 for the nodes on the stack
/// (a path of the graph), mark 2 for the finished ones, each of which was
/// finished after all its successors.
#[verifier::opaque]
pub open spec fn dfs_inv(av: Seq<Seq<usize>>, marks: Seq<u8>, stack: Seq<usize>, fin: Seq<usize>) -> bool {
    &&& adj_ok(av)
    &&& marks.len() == av.len()
    &&& marks.len() <= usize::MAX
    &&& forall|v: int| 0 <= v < marks.len() ==> #[trigger] marks[v] <= 2
    &&& forall|v: int| 0 <= v < marks.len() ==> (#[trigger] marks[v] == 1 <==> stack.contains(v as usize))
    &&& forall|v: int| 0 <= v < marks.len() ==> (#[trigger] marks[v] == 2 <==> fin.contains(v as usize))
    &&& forall|i: int| 0 <= i < stack.len() ==> #[trigger] stack[i] < marks.len()
    &&& forall|i: int| 0 <= i < fin.len() ==> #[trigger] fin[i] < marks.len()
    &&& distinct_idx(stack)
    &&& distinct_idx(fin)
    &&& forall|i: int| 0 <= i < stack.len() - 1 ==> idx_edge(av, #[trigger] stack[i] as int, stack[i + 1] as int)
    &&& forall|i: int, k: int| 0 <= i < fin.len() && 0 <= k < av[fin[i] as int].len()
        ==> finished_before(fin, i, #[trigger] av[fin[i] as int][k])
}

/// Number of unmarked nodes.
pub open spec fn zeros(marks: Seq<u8>) -> nat
    decreases marks.len(),
{
    if marks.len() == 0 {
        0
    } else {
        zeros(marks.drop_last()) + if marks.last() == 0 { 1nat } else { 0nat }
    }
}

proof fn lemma_zeros_mono(a: Seq<u8>, b: Seq<u8>)
    requires
        a.len() == b.len(),
        forall|v: int| 0 <= v < a.len() && a[v] != 0 ==> b[v] != 0,
    ensures
        zeros(b) <= zeros(a),
        (exists|v: int| 0 <= v < a.len() && a[v] == 0 && b[v] != 0) ==> zeros(b) < zeros(a),
    decreases a.len(),
{
    if a.len() > 0 {
        let a2 = a.drop_last();
        let b2 = b.drop_last();
        assert forall|v: int| 0 <= v < a2.len() && a2[v] != 0 implies b2[v] != 0 by {
            assert(a2[v] == a[v] && b2[v] == b[v]);
        }
        lemma_zeros_mono(a2, b2);
        if exists|v: int| 0 <= v < a.len() && a[v] == 0 && b[v] != 0 {
            let v = choose|v: int| 0 <= v < a.len() && a[v] == 0 && b[v] != 0;
            if v < a.len() - 1 {
                assert(a2[v] == a[v] && b2[v] == b[v]);
            }
        }
    }
}

proof fn lemma_enter(av: Seq<Seq<usize>>, m0: Seq<u8>, s0: Seq<usize>, f: Seq<usize>, node: usize)
    requires
        dfs_inv(av, m0, s0, f),
        node < m0.len(),
        m0[node as int] == 0,
        s0.len() > 0 ==> idx_edge(av, s0.last() as int, node as int),
    ensures
        dfs_inv(av, m0.update(node as int, 1), s0.push(node), f),
        zeros(m0.update(node as int, 1)) < zeros(m0),
{
    reveal(dfs_inv);
    let m = m0.update(node as int, 1);
    let st = s0.push(node);
    assert(!s0.contains(node));
    assert(st[s0.len() as int] == node);
    assert forall|v: int| 0 <= v < m.len() implies (#[trigger] m[v] == 1 <==> st.contains(v as usize)) by {
        if v == node as int {
            assert(v as usize == node);
            assert(st.contains(node));
        } else {
            assert(v as usize != node);
            assert(m[v] == m0[v]);
            if st.contains(v as usize) {
                let i = choose|i: int| 0 <= i < st.len() && st[i] == v as usize;
                if i < s0.len() {
                    assert(s0[i] == v as usize);
                }
            }
            if s0.contains(v as usize) {
                let i = choose|i: int| 0 <= i < s0.len() && s0[i] == v as usize;
                assert(st[i] == v as usize);
            }
        }
    }
    assert forall|v: int| 0 <= v < m.len() implies (#[trigger] m[v] == 2 <==> f.contains(v as usize)) by {
        if v != node as int {
            assert(m[v] == m0[v]);
        } else {
            assert(m0[v] != 2);
        }
    }
    assert forall|i: int, j: int| 0 <= i < j < st.len() implies #[trigger] st[i] != #[trigger] st[j] by {
        if j == s0.len() {
            assert(st[i] == s0[i]);
            assert(s0.contains(s0[i]));
        }
    }
    assert forall|i: int| 0 <= i < st.len() - 1 implies idx_edge(av, #[trigger] st[i] as int, st[i + 1] as int) by {
        if i + 1 == s0.len() {
            assert(st[i] == s0.last());
        }
    }
    assert forall|v: int| 0 <= v < m.len() implies #[trigger] m[v] <= 2 by {
        if v != node as int {
            assert(m[v] == m0[v]);
        }
    }
    assert forall|i: int| 0 <= i < st.len() implies #[trigger] st[i] < m.len() by {
        if i < s0.len() {
            assert(st[i] == s0[i]);
        }
    }
    lemma_zeros_mono(m0, m);
    assert(m0[node as int] == 0 && m[node as int] != 0);
}

proof fn lemma_leave(av: Seq<Seq<usize>>, m: Seq<u8>, s0: Seq<usize>, f: Seq<usize>, node: usize)
    requires
        dfs_inv(av, m, s0.push(node), f),
        node < m.len(),
        forall|j: int| 0 <= j < av[node as int].len() ==> m[#[trigger] av[node as int][j] as int] == 2,
    ensures
        dfs_inv(av, m.update(node as int, 2), s0, f.push(node)),
{
    reveal(dfs_inv);
    let st = s0.push(node);
    let m2 = m.update(node as int, 2);
    let g = f.push(node);
    assert(st[s0.len() as int] == node);
    assert(st.contains(node));
    assert(m[node as int] == 1);
    assert(!f.contains(node));
    assert(!s0.contains(node)) by {
        if s0.contains(node) {
            let i = choose|i: int| 0 <= i < s0.len() && s0[i] == node;
            assert(st[i] == node);
        }
    }
    assert(g[f.len() as int] == node);
    assert forall|v: int| 0 <= v < m2.len() implies (#[trigger] m2[v] == 1 <==> s0.contains(v as usize)) by {
        if v != node as int {
            assert(v as usize != node);
            assert(m2[v] == m[v]);
            if st.contains(v as usize) {
                let i = choose|i: int| 0 <= i < st.len() && st[i] == v as usize;
                assert(i < s0.len());
                assert(s0[i] == v as usize);
            }
            if s0.contains(v as usize) {
                let i = choose|i: int| 0 <= i < s0.len() && s0[i] == v as usize;
                assert(st[i] == v as usize);
            }
        }
    }
    assert forall|v: int| 0 <= v < m2.len() implies (#[trigger] m2[v] == 2 <==> g.contains(v as usize)) by {
        if v == node as int {
            assert(v as usize == node);
            assert(g.contains(node));
        } else {
            assert(v as usize != node);
            assert(m2[v] == m[v]);
            if g.contains(v as usize) {
                let i = choose|i: int| 0 <= i < g.len() && g[i] == v as usize;
                assert(i < f.len());
                assert(f[i] == v as usize);
            }
            if f.contains(v as usize) {
                let i = choose|i: int| 0 <= i < f.len() && f[i] == v as usize;
                assert(g[i] == v as usize);
            }
        }
    }
    assert forall|v: int| 0 <= v < m2.len() implies #[trigger] m2[v] <= 2 by {
        if v != node as int {
            assert(m2[v] == m[v]);
        }
    }
    assert forall|i: int| 0 <= i < s0.len() implies #[trigger] s0[i] < m2.len() by {
        assert(st[i] == s0[i]);
    }
    assert forall|i: int| 0 <= i < g.len() implies #[trigger] g[i] < m2.len() by {
        if i < f.len() {
            assert(g[i] == f[i]);
        }
    }
    assert forall|i: int, j: int| 0 <= i < j < s0.len() implies #[trigger] s0[i] != #[trigger] s0[j] by {
        assert(st[i] == s0[i] && st[j] == s0[j]);
    }
    assert forall|i: int, j: int| 0 <= i < j < g.len() implies #[trigger] g[i] != #[trigger] g[j] by {
        if j == f.len() {
            assert(g[i] == f[i]);
            assert(f.contains(f[i]));
        } else {
            assert(g[i] == f[i] && g[j] == f[j]);
        }
    }
    assert forall|i: int| 0 <= i < s0.len() - 1 implies idx_edge(av, #[trigger] s0[i] as int, s0[i + 1] as int) by {
        assert(st[i] == s0[i] && st[i + 1] == s0[i + 1]);
    }
    assert forall|i: int, kk: int| 0 <= i < g.len() && 0 <= kk < av[g[i] as int].len()
        implies finished_before(g, i, #[trigger] av[g[i] as int][kk]) by {
        if i < f.len() {
            assert(g[i] == f[i]);
            assert(finished_before(f, i, av[f[i] as int][kk]));
            let j = choose|j: int| 0 <= j < i && #[trigger] f[j] == av[f[i] as int][kk];
            assert(g[j] == f[j]);
        } else {
            assert(g[i] == node);
            let w = av[node as int][kk];
            assert(m[w as int] == 2);
            assert(f.contains(w));
            let j = choose|j: int| 0 <= j < f.len() && f[j] == w;
            assert(g[j] == w);
        }
    }
}

proof fn lemma_inv_len(av: Seq<Seq<usize>>, m: Seq<u8>, st: Seq<usize>, f: Seq<usize>)
    requires
        dfs_inv(av, m, st, f),
    ensures
        m.len() == av.len(),
        m.len() <= usize::MAX,
        adj_ok(av),
{
    reveal(dfs_inv);
}

proof fn lemma_inv_facts(av: Seq<Seq<usize>>, m: Seq<u8>, st: Seq<usize>, f: Seq<usize>, node: usize, next: usize)
    requires
        dfs_inv(av, m, st, f),
        node < m.len(),
        av[node as int].contains(next),
    ensures
        next < m.len(),
        m[next as int] <= 2,
        m[next as int] == 1 ==> st.contains(next),
        forall|i: int| 0 <= i < st.len() - 1 ==> idx_edge(av, #[trigger] st[i] as int, st[i + 1] as int),
        forall|i: int| 0 <= i < st.len() ==> #[trigger] st[i] < m.len(),
{
    reveal(dfs_inv);
    let k = choose|k: int| 0 <= k < av[node as int].len() && av[node as int][k] == next;
    assert(av[node as int][k] < av.len());
}

proof fn lemma_stack_cycle(av: Seq<Seq<usize>>, st: Seq<usize>, pos: int, node: usize, next: usize, n: nat)
    requires
        0 <= pos < st.len(),
        st.last() == node,
        st[pos] == next,
        idx_edge(av, node as int, next as int),
        forall|i: int| 0 <= i < st.len() - 1 ==> idx_edge(av, #[trigger] st[i] as int, st[i + 1] as int),
        forall|i: int| 0 <= i < st.len() ==> #[trigger] st[i] < n,
        next < n,
    ensures
        is_idx_cycle(av, st.subrange(pos, st.len() as int).push(next)),
        forall|i: int| 0 <= i < st.subrange(pos, st.len() as int).push(next).len()
            ==> #[trigger] st.subrange(pos, st.len() as int).push(next)[i] < n,
{
    let c = st.subrange(pos, st.len() as int).push(next);
    assert(c[0] == st[pos]);
    assert forall|i: int| 0 <= i < c.len() - 1 implies idx_edge(av, #[trigger] c[i] as int, c[i + 1] as int) by {
        assert(c[i] == st[pos + i]);
        if i + 1 < c.len() - 1 {
            assert(c[i + 1] == st[pos + i + 1]);
        } else {
            assert(st[pos + i] == node);
        }
    }
    assert forall|i: int| 0 <= i < c.len() implies #[trigger] c[i] < n by {
        if i < c.len() - 1 {
            assert(c[i] == st[pos + i]);
        }
    }
}

/// Searches depth-first from `node`: a cycle through the stack, or `None`
/// with `node` finished and the stack as it was.
fn dfs(
    adj: &Vec<Vec<usize>>,
    node: usize,
    marks: &mut Vec<u8>,
    stack: &mut Vec<usize>,
    fin: &mut Vec<usize>,
) -> (r: Option<Vec<usize>>)
    requires
        dfs_inv(adj_views(adj@), old(marks)@, old(stack)@, old(fin)@),
        node < old(marks)@.len(),
        old(marks)@[node as int] == 0,
        old(stack)@.len() > 0 ==> idx_edge(adj_views(adj@), old(stack)@.last() as int, node as int),
    ensures
        match r {
            Some(c) => is_idx_cycle(adj_views(adj@), c@) && forall|i: int| 0 <= i < c@.len() ==> #[trigger] c@[i] < adj@.len(),
            None => {
                &&& dfs_inv(adj_views(adj@), final(marks)@, final(stack)@, final(fin)@)
                &&& final(stack)@ == old(stack)@
                &&& final(marks)@[node as int] == 2
                &&& forall|v: int| 0 <= v < old(marks)@.len() && #[trigger] old(marks)@[v] != 0 ==> final(marks)@[v] == old(marks)@[v]
            },
        },
    decreases zeros(old(marks)@),
{
    let ghost av = adj_views(adj@);
    let ghost m0 = marks@;
    let ghost s0 = stack@;
    proof {
        lemma_enter(av, m0, s0, fin@, node);
        lemma_inv_len(av, m0, s0, fin@);
    }
    marks.set(node, 1);
    stack.push(node);
    assert(marks@ == m0.update(node as int, 1));
    assert(stack@ == s0.push(node));
    let mut k: usize = 0;
    let n_adj = adj[node].len();
    while k < n_adj
        invariant
            av == adj_views(adj@),
            adj@.len() == m0.len(),
            dfs_inv(av, marks@, stack@, fin@),
            stack@ == s0.push(node),
            node < m0.len(),
            marks@.len() == m0.len(),
            n_adj == av[node as int].len(),
            k <= n_adj,
            forall|j: int| 0 <= j < k ==> marks@[#[trigger] av[node as int][j] as int] == 2,
            forall|v: int| 0 <= v < m0.len() && #[trigger] m0[v] != 0 ==> marks@[v] == m0[v],
            marks@[node as int] == 1,
            zeros(marks@) < zeros(m0),
            m0 == old(marks)@,
            adj_ok(av),
        decreases n_adj - k,
    {
        let next = adj[node][k];
        assert(av[node as int][k as int] == next);
        assert(av[node as int].contains(next));
        proof {
            lemma_inv_facts(av, marks@, stack@, fin@, node, next);
        }
        let mark = marks[next];
        if mark == 1 {
            let pos = stack_position(stack, next);
            let mut cycle: Vec<usize> = Vec::new();
            let mut q: usize = pos;
            while q < stack.len()
                invariant
                    pos <= q <= stack@.len(),
                    cycle@ == stack@.subrange(pos as int, q as int),
                decreases stack.len() - q,
            {
                cycle.push(stack[q]);
                q = q + 1;
                assert(cycle@ =~= stack@.subrange(pos as int, q as int));
            }
            proof {
                lemma_stack_cycle(av, stack@, pos as int, node, next, m0.len());
            }
            cycle.push(next);
            return Some(cycle);
        } else if mark == 0 {
            let ghost m_before = marks@;
            assert(zeros(m_before) < zeros(m0));
            let found = dfs(adj, next, marks, stack, fin);
            match found {
                Some(c) => return Some(c),
                None => {},
            }
            proof {
                lemma_inv_len(av, marks@, stack@, fin@);
                assert forall|v: int| 0 <= v < m0.len() && #[trigger] m0[v] != 0 implies marks@[v] == m0[v] by {
                    assert(m_before[v] == m0[v]);
                }
                assert(marks@[next as int] == 2);
                assert forall|j: int| 0 <= j < k + 1 implies marks@[#[trigger] av[node as int][j] as int] == 2 by {
                    if j < k {
                        assert(m_before[av[node as int][j] as int] == 2);
                        assert(m_before[av[node as int][j] as int] != 0);
                    } else {
                        assert(av[node as int][j] == next);
                    }
                }
                lemma_zeros_mono(m_before, marks@);
            }
        }
        k = k + 1;
    }
    proof {
        lemma_leave(av, marks@, s0, fin@, node);
    }
    let _ = stack.pop();
    assert(stack@ =~= s0);
    marks.set(node, 2);
    fin.push(node);
    None
}

fn stack_position(stack: &Vec<usize>, x: usize) -> (pos: usize)
    requires
        stack@.contains(x),
    ensures
        pos < stack@.len(),
        stack@[pos as int] == x,
{
    let mut pos: usize = 0;
    while pos < stack.len()
        invariant
            pos <= stack@.len(),
            stack@.contains(x),
            forall|j: int| 0 <= j < pos ==> stack@[j] != x,
        decreases stack.len() - pos,
    {
        if stack[pos] == x {
            return pos;
        }
        pos = pos + 1;
    }
    proof {
        let j = choose|j: int| 0 <= j < stack@.len() && stack@[j] == x;
        assert(stack@[j] != x);
    }
    0
}

} // verus!

verus! {

/// The workflow lists an edge from `a` to `b`.
pub open spec fn edge_listed(edges: Seq<WorkflowEdge>, a: Seq<char>, b: Seq<char>) -> bool {
    exists|k: int| 0 <= k < edges.len() && (#[trigger] edges[k]).from@ == a && edges[k].to@ == b
}

fn is_edge_listed(edges: &Vec<WorkflowEdge>, a: &str, b: &str) -> (r: bool)
    ensures
        r == edge_listed(edges@, a@, b@),
{
    let mut k: usize = 0;
    while k < edges.len()
        invariant
            k <= edges@.len(),
            forall|j: int| 0 <= j < k ==> !((#[trigger] edges@[j]).from@ == a@ && edges@[j].to@ == b@),
        decreases edges.len() - k,
    {
        if str_equals(edges[k].from.as_str(), a) && str_equals(edges[k].to.as_str(), b) {
            assert(edges@[k as int].from@ == a@ && edges@[k as int].to@ == b@);
            return true;
        }
        k = k + 1;
    }
    false
}

proof fn lemma_inv_init(av: Seq<Seq<usize>>, m: Seq<u8>)
    requires
        adj_ok(av),
        m.len() == av.len(),
        m.len() <= usize::MAX,
        forall|v: int| 0 <= v < m.len() ==> m[v] == 0,
    ensures
        dfs_inv(av, m, Seq::empty(), Seq::empty()),
{
    reveal(dfs_inv);
}

proof fn lemma_all_finished(av: Seq<Seq<usize>>, m: Seq<u8>, f: Seq<usize>)
    requires
        dfs_inv(av, m, Seq::empty(), f),
        forall|v: int| 0 <= v < m.len() ==> m[v] != 0,
    ensures
        forall|v: usize| (v as int) < av.len() ==> #[trigger] f.contains(v),
        distinct_idx(f),
        forall|i: int, k: int| 0 <= i < f.len() && 0 <= k < av[f[i] as int].len()
            ==> finished_before(f, i, #[trigger] av[f[i] as int][k]),
        adj_ok(av),
        forall|i: int| 0 <= i < f.len() ==> #[trigger] f[i] < av.len(),
        av.len() <= usize::MAX,
{
    reveal(dfs_inv);
    assert forall|v: usize| (v as int) < av.len() implies #[trigger] f.contains(v) by {
        assert(m[v as int] <= 2);
        assert(m[v as int] != 1) by {
            if m[v as int] == 1 {
                assert(Seq::<usize>::empty().contains(v));
            }
        }
    }
}

pub open spec fn fin_pos(f: Seq<usize>, v: usize) -> int {
    choose|j: int| 0 <= j < f.len() && f[j] == v
}

/// Along a path, the finishing positions strictly decrease.
proof fn lemma_fin_pos_path(av: Seq<Seq<usize>>, f: Seq<usize>, c: Seq<usize>, i: int)
    requires
        forall|v: usize| (v as int) < av.len() ==> #[trigger] f.contains(v),
        distinct_idx(f),
        forall|a: int, k: int| 0 <= a < f.len() && 0 <= k < av[f[a] as int].len()
            ==> finished_before(f, a, #[trigger] av[f[a] as int][k]),
        adj_ok(av),
        is_idx_cycle(av, c),
        0 <= i < c.len(),
        forall|q: int| 0 <= q < c.len() ==> #[trigger] c[q] < av.len(),
    ensures
        0 <= fin_pos(f, c[i]) < f.len(),
        f[fin_pos(f, c[i])] == c[i],
        fin_pos(f, c[i]) + i <= fin_pos(f, c[0]),
    decreases i,
{
    assert(f.contains(c[i]));
    if i > 0 {
        lemma_fin_pos_path(av, f, c, i - 1);
        let u = c[i - 1];
        let w = c[i];
        assert(idx_edge(av, u as int, w as int));
        let k = choose|k: int| 0 <= k < av[u as int].len() && #[trigger] av[u as int][k] == w;
        let pu = fin_pos(f, u);
        assert(f[pu] == u);
        assert(finished_before(f, pu, av[f[pu] as int][k]));
        let j = choose|j: int| 0 <= j < pu && #[trigger] f[j] == w;
        let pw = fin_pos(f, w);
        assert(f[pw] == w);
        if pw != j {
            if pw < j {
                assert(f[pw] != f[j]);
            } else {
                assert(f[j] != f[pw]);
            }
        }
    }
}

/// When every node was finished after its successors, no path closes.
proof fn lemma_no_idx_cycle(av: Seq<Seq<usize>>, f: Seq<usize>, c: Seq<usize>)
    requires
        forall|v: usize| (v as int) < av.len() ==> #[trigger] f.contains(v),
        distinct_idx(f),
        forall|i: int, k: int| 0 <= i < f.len() && 0 <= k < av[f[i] as int].len()
            ==> finished_before(f, i, #[trigger] av[f[i] as int][k]),
        adj_ok(av),
        av.len() <= usize::MAX,
    ensures
        !is_idx_cycle(av, c),
{
    if is_idx_cycle(av, c) {
        assert forall|i: int| 0 <= i < c.len() implies #[trigger] c[i] < av.len() by {
            if i < c.len() - 1 {
                assert(idx_edge(av, c[i] as int, c[i + 1] as int));
            } else {
                assert(idx_edge(av, c[i - 1] as int, c[i] as int));
                let u = c[i - 1] as int;
                let k = choose|k: int| 0 <= k < av[u].len() && #[trigger] av[u][k] == c[i];
                assert(av[u][k] < av.len());
            }
        }
        lemma_fin_pos_path(av, f, c, c.len() - 1);
    }
}

/// A cycle of the workflow graph, closed (its first node repeated at the
/// end), found by a depth-first search over the node ids in order; empty
/// when the graph has none.
pub fn find_cycle_path(node_ids: &Vec<String>, edges: &Vec<WorkflowEdge>) -> (r: Vec<String>)
    ensures
        r@.len() > 0 ==> is_cycle(texts(node_ids@), edges@, texts(r@)),
        r@.len() == 0 ==> forall|p: Seq<Seq<char>>| !is_cycle(texts(node_ids@), edges@, p),
{
    let ghost nodes = texts(node_ids@);
    let mut ids: Vec<String> = Vec::new();
    let mut i: usize = 0;
    while i < node_ids.len()
        invariant
            i <= node_ids@.len(),
            nodes == texts(node_ids@),
            strictly_sorted(texts(ids@)),
            forall|x: Seq<char>| #[trigger] texts(ids@).contains(x) <==> texts(node_ids@.take(i as int)).contains(x),
        decreases node_ids.len() - i,
    {
        let ghost before = texts(ids@);
        insert_sorted(&mut ids, node_ids[i].clone());
        proof {
            let pre = texts(node_ids@.take(i as int));
            let nxt = texts(node_ids@.take(i + 1));
            let y = node_ids@[i as int]@;
            assert(nxt =~= pre.push(y));
            assert forall|x: Seq<char>| #[trigger] texts(ids@).contains(x) <==> nxt.contains(x) by {
                if nxt.contains(x) {
                    let j = choose|j: int| 0 <= j < nxt.len() && nxt[j] == x;
                    if j < pre.len() {
                        assert(pre[j] == x);
                        assert(pre.contains(x));
                        assert(before.contains(x));
                    }
                }
                if pre.contains(x) {
                    let j = choose|j: int| 0 <= j < pre.len() && pre[j] == x;
                    assert(nxt[j] == x);
                }
                if x == y {
                    assert(nxt[pre.len() as int] == y);
                }
            }
        }
        i = i + 1;
    }
    assert(node_ids@.take(i as int) =~= node_ids@);
    let ghost tids = texts(ids@);
    assert(forall|x: Seq<char>| #[trigger] tids.contains(x) <==> nodes.contains(x));
    let n = ids.len();
    let mut adj: Vec<Vec<usize>> = Vec::new();
    let mut u: usize = 0;
    while u < n
        invariant
            n == ids@.len(),
            tids == texts(ids@),
            u <= n,
            adj@.len() == u,
            forall|a: int, k: int| 0 <= a < u && 0 <= k < adj@[a]@.len() ==> #[trigger] adj@[a]@[k] < n,
            forall|a: int, w: int| 0 <= a < u && 0 <= w < n ==>
                (#[trigger] adj@[a]@.contains(w as usize) <==> edge_listed(edges@, tids[a], tids[w])),
        decreases n - u,
    {
        let mut list: Vec<usize> = Vec::new();
        let mut w: usize = 0;
        while w < n
            invariant
                n == ids@.len(),
                tids == texts(ids@),
                u < n,
                w <= n,
                forall|k: int| 0 <= k < list@.len() ==> #[trigger] list@[k] < w,
                forall|x: int| 0 <= x < w ==> (#[trigger] list@.contains(x as usize) <==> edge_listed(edges@, tids[u as int], tids[x])),
            decreases n - w,
        {
            assert(tids[u as int] == ids@[u as int]@ && tids[w as int] == ids@[w as int]@);
            if is_edge_listed(edges, ids[u].as_str(), ids[w].as_str()) {
                let ghost before = list@;
                list.push(w);
                assert forall|x: int| 0 <= x < w + 1 implies (#[trigger] list@.contains(x as usize) <==> edge_listed(edges@, tids[u as int], tids[x])) by {
                    if x < w {
                        if list@.contains(x as usize) {
                            let k = choose|k: int| 0 <= k < list@.len() && list@[k] == x as usize;
                            assert(k < before.len());
                            assert(before[k] == x as usize);
                        }
                        if before.contains(x as usize) {
                            let k = choose|k: int| 0 <= k < before.len() && before[k] == x as usize;
                            assert(list@[k] == x as usize);
                        }
                    } else {
                        assert(list@[before.len() as int] == w);
                    }
                }
            } else {
                assert(!list@.contains(w));
            }
            w = w + 1;
        }
        adj.push(list);
        proof {
            assert forall|a: int, w: int| 0 <= a < u + 1 && 0 <= w < n implies
                (#[trigger] adj@[a]@.contains(w as usize) <==> edge_listed(edges@, tids[a], tids[w])) by {
            }
        }
        u = u + 1;
    }
    let ghost av = adj_views(adj@);
    assert forall|a: int, k: int| 0 <= a < av.len() && 0 <= k < av[a].len() implies #[trigger] av[a][k] < av.len() by {
        assert(av[a] == adj@[a]@);
    }
    assert forall|a: int, w: int| 0 <= a < av.len() && 0 <= w < av.len() implies
        (#[trigger] av[a].contains(w as usize) <==> edge_listed(edges@, tids[a], tids[w])) by {
        assert(av[a] == adj@[a]@);
    }
    let mut marks: Vec<u8> = Vec::new();
    let mut z: usize = 0;
    while z < n
        invariant
            z <= n,
            marks@.len() == z,
            forall|v: int| 0 <= v < z ==> marks@[v] == 0,
        decreases n - z,
    {
        marks.push(0);
        z = z + 1;
    }
    let mut stack: Vec<usize> = Vec::new();
    let mut fin: Vec<usize> = Vec::new();
    proof {
        lemma_inv_init(av, marks@);
        assert(stack@ == Seq::<usize>::empty());
        assert(fin@ == Seq::<usize>::empty());
    }
    let mut v: usize = 0;
    while v < n
        invariant
            n == ids@.len(),
            av == adj_views(adj@),
            av.len() == n,
            v <= n,
            dfs_inv(av, marks@, stack@, fin@),
            stack@ == Seq::<usize>::empty(),
            marks@.len() == n,
            tids == texts(ids@),
            nodes == texts(node_ids@),
            forall|x: Seq<char>| #[trigger] tids.contains(x) <==> nodes.contains(x),
            forall|a: int, w: int| 0 <= a < av.len() && 0 <= w < av.len() ==>
                (#[trigger] av[a].contains(w as usize) <==> edge_listed(edges@, tids[a], tids[w])),
            forall|x: int| 0 <= x < v ==> #[trigger] marks@[x] != 0,
        decreases n - v,
    {
        if marks[v] == 0 {
            let ghost m_before = marks@;
            match dfs(&adj, v, &mut marks, &mut stack, &mut fin) {
                Some(c) => {
                    let r = cycle_names(&ids, &c);
                    proof {
                        assert(texts(r@) =~= c@.map_values(|x: usize| tids[x as int]));
                        lemma_cycle_names(nodes, edges@, tids, av, c@, texts(r@));
                    }
                    return r;
                },
                None => {},
            }
            proof {
                lemma_inv_len(av, marks@, stack@, fin@);
                assert forall|x: int| 0 <= x < v + 1 implies #[trigger] marks@[x] != 0 by {
                    if x < v {
                        assert(m_before[x] != 0);
                    }
                }
            }
        }
        v = v + 1;
    }
    proof {
        lemma_all_finished(av, marks@, fin@);
        assert forall|p: Seq<Seq<char>>| !is_cycle(nodes, edges@, p) by {
            if is_cycle(nodes, edges@, p) {
                let c = lemma_cycle_indices(nodes, edges@, tids, av, p);
                lemma_no_idx_cycle(av, fin@, c);
            }
        }
    }
    Vec::new()
}

fn cycle_names(ids: &Vec<String>, c: &Vec<usize>) -> (r: Vec<String>)
    requires
        forall|i: int| 0 <= i < c@.len() ==> #[trigger] c@[i] < ids@.len(),
    ensures
        texts(r@) == c@.map_values(|x: usize| ids@[x as int]@),
{
    let mut r: Vec<String> = Vec::new();
    let mut i: usize = 0;
    while i < c.len()
        invariant
            i <= c@.len(),
            forall|i: int| 0 <= i < c@.len() ==> #[trigger] c@[i] < ids@.len(),
            texts(r@) == c@.take(i as int).map_values(|x: usize| ids@[x as int]@),
        decreases c.len() - i,
    {
        let ghost before = texts(r@);
        r.push(ids[c[i]].clone());
        proof {
            assert(texts(r@) =~= before.push(ids@[c@[i as int] as int]@));
            assert(c@.take(i + 1).map_values(|x: usize| ids@[x as int]@)
                =~= c@.take(i as int).map_values(|x: usize| ids@[x as int]@).push(ids@[c@[i as int] as int]@));
        }
        i = i + 1;
    }
    assert(c@.take(i as int) =~= c@);
    r
}

proof fn lemma_cycle_names(
    nodes: Seq<Seq<char>>,
    edges: Seq<WorkflowEdge>,
    tids: Seq<Seq<char>>,
    av: Seq<Seq<usize>>,
    c: Seq<usize>,
    names: Seq<Seq<char>>,
)
    requires
        av.len() == tids.len(),
        forall|x: Seq<char>| #[trigger] tids.contains(x) <==> nodes.contains(x),
        forall|a: int, w: int| 0 <= a < av.len() && 0 <= w < av.len() ==>
            (#[trigger] av[a].contains(w as usize) <==> edge_listed(edges, tids[a], tids[w])),
        is_idx_cycle(av, c),
        forall|i: int| 0 <= i < c.len() ==> #[trigger] c[i] < av.len(),
        names == c.map_values(|x: usize| tids[x as int]),
    ensures
        is_cycle(nodes, edges, names),
{
    assert forall|i: int| 0 <= i < names.len() - 1 implies has_edge(nodes, edges, #[trigger] names[i], names[i + 1]) by {
        assert(idx_edge(av, c[i] as int, c[i + 1] as int));
        assert(names[i] == tids[c[i] as int]);
        assert(names[i + 1] == tids[c[i + 1] as int]);
        assert(tids.contains(tids[c[i] as int]));
        assert(tids.contains(tids[c[i + 1] as int]));
        let k = choose|k: int| 0 <= k < edges.len() && (#[trigger] edges[k]).from@ == tids[c[i] as int]
            && edges[k].to@ == tids[c[i + 1] as int];
    }
}

proof fn lemma_cycle_indices(
    nodes: Seq<Seq<char>>,
    edges: Seq<WorkflowEdge>,
    tids: Seq<Seq<char>>,
    av: Seq<Seq<usize>>,
    p: Seq<Seq<char>>,
) -> (c: Seq<usize>)
    requires
        av.len() == tids.len(),
        av.len() <= usize::MAX,
        forall|x: Seq<char>| #[trigger] tids.contains(x) <==> nodes.contains(x),
        forall|a: int, w: int| 0 <= a < av.len() && 0 <= w < av.len() ==>
            (#[trigger] av[a].contains(w as usize) <==> edge_listed(edges, tids[a], tids[w])),
        is_cycle(nodes, edges, p),
    ensures
        is_idx_cycle(av, c),
{
    let idx = |x: Seq<char>| choose|j: int| 0 <= j < tids.len() && tids[j] == x;
    let c = Seq::new(p.len(), |i: int| idx(p[i]) as usize);
    assert forall|i: int| 0 <= i < p.len() - 1 implies idx_edge(av, #[trigger] c[i] as int, c[i + 1] as int) by {
        assert(has_edge(nodes, edges, p[i], p[i + 1]));
        assert(tids.contains(p[i]));
        assert(tids.contains(p[i + 1]));
        let a = idx(p[i]);
        let w = idx(p[i + 1]);
        assert(tids[a] == p[i] && tids[w] == p[i + 1]);
        let k = choose|k: int| 0 <= k < edges.len() && (#[trigger] edges[k]).from@ == p[i] && edges[k].to@ == p[i + 1];
        assert(edge_listed(edges, tids[a], tids[w]));
        assert(av[a].contains(w as usize));
    }
    c
}

} // verus!

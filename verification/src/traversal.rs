//! The walk that finds every chunk that has to load together with a set of
//! entry chunks.
//!
//! The walk is depth first and emits a chunk when all the chunks it points to
//! have been dealt with, so that a chunk comes after the chunks it needs. A
//! graph is given here by its edges alone: `edges[u]` lists the nodes that
//! node `u` points to.

use vstd::prelude::*;
use crate::graph::ChunkGraph;

verus! {

/// A node that the walk has entered and not yet left, with the number of its
/// edges that were followed so far.
#[derive(Clone, Copy, Debug)]
pub struct Frame {
    pub node: usize,
    pub next: usize,
}

/// The state of a walk between two steps.
pub struct Walk {
    /// How many of the entries were taken up.
    pub roots_done: int,
    /// The nodes entered and not left, the innermost last.
    pub stack: Seq<Frame>,
    /// For each node whether the walk has entered it.
    pub visited: Seq<bool>,
    /// The nodes left, in the order in which they were left.
    pub out: Seq<usize>,
}

/// Every edge ends at a node of the graph, and the graph and the edge lists of
/// its nodes have lengths that a machine can hold.
pub open spec fn edges_wf(edges: Seq<Seq<usize>>) -> bool {
    &&& edges.len() <= usize::MAX
    &&& forall|u: int| 0 <= u < edges.len() ==> (#[trigger] edges[u]).len() <= usize::MAX
    &&& forall|u: int, k: int|
        0 <= u < edges.len() && 0 <= k < edges[u].len() ==> (#[trigger] edges[u][k]) < edges.len()
}

/// Every entry is a node of the graph.
pub open spec fn nodes_in(edges: Seq<Seq<usize>>, nodes: Seq<usize>) -> bool {
    forall|i: int| 0 <= i < nodes.len() ==> (#[trigger] nodes[i]) < edges.len()
}

/// `p` is a walk along edges: a non-empty sequence of nodes, each pointing to
/// the next.
pub open spec fn is_path(edges: Seq<Seq<usize>>, p: Seq<usize>) -> bool {
    &&& p.len() > 0
    &&& forall|i: int| 0 <= i < p.len() ==> (#[trigger] p[i]) < edges.len()
    &&& forall|i: int|
        0 <= i < p.len() - 1 ==> (#[trigger] edges[p[i] as int]).contains(p[i + 1])
}

/// `to` can be reached from `from` along edges; every node reaches itself.
pub open spec fn reaches(edges: Seq<Seq<usize>>, from: usize, to: usize) -> bool {
    exists|p: Seq<usize>| #[trigger] is_path(edges, p) && p[0] == from && p.last() == to
}

/// `x` can be reached from one of `entries`.
pub open spec fn reachable_from(edges: Seq<Seq<usize>>, entries: Seq<usize>, x: usize) -> bool {
    exists|i: int| 0 <= i < entries.len() && #[trigger] reaches(edges, entries[i], x)
}

/// The number of nodes that the walk has not entered.
pub open spec fn unvisited(visited: Seq<bool>) -> nat
    decreases visited.len(),
{
    if visited.len() == 0 {
        0
    } else {
        unvisited(visited.drop_last()) + if visited.last() {
            0nat
        } else {
            1nat
        }
    }
}

/// The number of steps that the frames on the stack still ask for if no new
/// node is entered.
pub open spec fn frames_pending(edges: Seq<Seq<usize>>, stack: Seq<Frame>) -> int
    decreases stack.len(),
{
    if stack.len() == 0 {
        0
    } else {
        frames_pending(edges, stack.drop_last()) + (edges[stack.last().node as int].len()
            - stack.last().next + 1)
    }
}

/// The shape that every state of a walk has.
pub open spec fn walk_wf(edges: Seq<Seq<usize>>, entries: Seq<usize>, st: Walk) -> bool {
    &&& edges_wf(edges)
    &&& nodes_in(edges, entries)
    &&& 0 <= st.roots_done <= entries.len()
    &&& st.visited.len() == edges.len()
    &&& forall|k: int|
        0 <= k < st.stack.len() ==> (#[trigger] st.stack[k]).node < edges.len() && st.stack[k].next
            <= edges[st.stack[k].node as int].len()
}

/// The walk has nothing left to do.
pub open spec fn walk_done(entries: Seq<usize>, st: Walk) -> bool {
    st.stack.len() == 0 && st.roots_done >= entries.len()
}

/// The state before the first step.
pub open spec fn walk_start(edges: Seq<Seq<usize>>) -> Walk {
    Walk {
        roots_done: 0,
        stack: Seq::empty(),
        visited: Seq::new(edges.len(), |i: int| false),
        out: Seq::empty(),
    }
}

/// One step of the walk. With an empty stack the next entry is taken up and
/// entered unless it was entered before. Otherwise the innermost node either
/// follows its next edge, entering the node there unless it was entered before,
/// or, with no edge left, is left and emitted.
pub open spec fn walk_step(edges: Seq<Seq<usize>>, entries: Seq<usize>, st: Walk) -> Walk {
    if st.stack.len() == 0 {
        let r = entries[st.roots_done];
        if st.visited[r as int] {
            Walk { roots_done: st.roots_done + 1, ..st }
        } else {
            Walk {
                roots_done: st.roots_done + 1,
                stack: seq![Frame { node: r, next: 0 }],
                visited: st.visited.update(r as int, true),
                out: st.out,
            }
        }
    } else {
        let top = st.stack.last();
        if top.next < edges[top.node as int].len() {
            let c = edges[top.node as int][top.next as int];
            let bumped = st.stack.update(
                st.stack.len() - 1,
                Frame { node: top.node, next: (top.next + 1) as usize },
            );
            if st.visited[c as int] {
                Walk { stack: bumped, ..st }
            } else {
                Walk {
                    stack: bumped.push(Frame { node: c, next: 0 }),
                    visited: st.visited.update(c as int, true),
                    ..st
                }
            }
        } else {
            Walk { stack: st.stack.drop_last(), out: st.out.push(top.node), ..st }
        }
    }
}

/// The state in which the walk ends when it goes on from `st`.
pub open spec fn walk_run(edges: Seq<Seq<usize>>, entries: Seq<usize>, st: Walk) -> Walk
    decreases unvisited(st.visited), entries.len() - st.roots_done + frames_pending(edges, st.stack),
    when walk_wf(edges, entries, st)
    via walk_run_decreases
{
    if walk_done(entries, st) {
        st
    } else {
        walk_run(edges, entries, walk_step(edges, entries, st))
    }
}

/// The chunks that load together with `entries`: the nodes that the walk from
/// `entries` emits, in the order in which it emits them.
pub open spec fn parallel_chunks_of(edges: Seq<Seq<usize>>, entries: Seq<usize>) -> Seq<usize> {
    walk_run(edges, entries, walk_start(edges)).out
}

proof fn lemma_unvisited_update(visited: Seq<bool>, i: int)
    requires
        0 <= i < visited.len(),
        !visited[i],
    ensures
        unvisited(visited.update(i, true)) + 1 == unvisited(visited),
    decreases visited.len(),
{
    let updated = visited.update(i, true);
    if i == visited.len() - 1 {
        assert(updated.drop_last() =~= visited.drop_last());
    } else {
        lemma_unvisited_update(visited.drop_last(), i);
        assert(updated.drop_last() =~= visited.drop_last().update(i, true));
    }
}

proof fn lemma_frames_pending_bounds(edges: Seq<Seq<usize>>, stack: Seq<Frame>)
    requires
        forall|k: int|
            0 <= k < stack.len() ==> (#[trigger] stack[k]).node < edges.len() && stack[k].next
                <= edges[stack[k].node as int].len(),
    ensures
        frames_pending(edges, stack) >= stack.len(),
    decreases stack.len(),
{
    if stack.len() > 0 {
        let rest = stack.drop_last();
        assert forall|k: int| 0 <= k < rest.len() implies (#[trigger] rest[k]).node < edges.len()
            && rest[k].next <= edges[rest[k].node as int].len() by {
            assert(rest[k] == stack[k]);
        }
        lemma_frames_pending_bounds(edges, rest);
        assert(stack[stack.len() - 1] == stack.last());
    }
}

/// A step keeps the shape of the state and brings the walk nearer to its end.
proof fn lemma_step_wf(edges: Seq<Seq<usize>>, entries: Seq<usize>, st: Walk)
    requires
        walk_wf(edges, entries, st),
        !walk_done(entries, st),
    ensures
        walk_wf(edges, entries, walk_step(edges, entries, st)),
        frames_pending(edges, st.stack) >= 0,
        frames_pending(edges, walk_step(edges, entries, st).stack) >= 0,
        unvisited(walk_step(edges, entries, st).visited) < unvisited(st.visited) || (unvisited(
            walk_step(edges, entries, st).visited,
        ) == unvisited(st.visited) && entries.len() - walk_step(edges, entries, st).roots_done
            + frames_pending(edges, walk_step(edges, entries, st).stack) < entries.len()
            - st.roots_done + frames_pending(edges, st.stack)),
{
    let next = walk_step(edges, entries, st);
    lemma_frames_pending_bounds(edges, st.stack);
    if st.stack.len() == 0 {
        let r = entries[st.roots_done];
        assert(r < edges.len());
        if st.visited[r as int] {
        } else {
            lemma_unvisited_update(st.visited, r as int);
            assert(next.stack[0] == Frame { node: r, next: 0 });
        }
    } else {
        let top = st.stack.last();
        let last = st.stack.len() - 1;
        assert(st.stack[last] == top);
        if top.next < edges[top.node as int].len() {
            let c = edges[top.node as int][top.next as int];
            assert(c < edges.len());
            let bumped = st.stack.update(
                last,
                Frame { node: top.node, next: (top.next + 1) as usize },
            );
            assert(edges[top.node as int].len() <= usize::MAX);
            assert(bumped.drop_last() =~= st.stack.drop_last());
            assert(bumped.last() == Frame { node: top.node, next: (top.next + 1) as usize });
            assert(frames_pending(edges, bumped) == frames_pending(edges, st.stack) - 1);
            if st.visited[c as int] {
                assert forall|k: int| 0 <= k < next.stack.len() implies (
                #[trigger] next.stack[k]).node < edges.len() && next.stack[k].next
                    <= edges[next.stack[k].node as int].len() by {
                    if k < last {
                        assert(next.stack[k] == st.stack[k]);
                    }
                }
            } else {
                lemma_unvisited_update(st.visited, c as int);
                assert(next.stack.drop_last() =~= bumped);
                assert forall|k: int| 0 <= k < next.stack.len() implies (
                #[trigger] next.stack[k]).node < edges.len() && next.stack[k].next
                    <= edges[next.stack[k].node as int].len() by {
                    if k < last {
                        assert(next.stack[k] == st.stack[k]);
                    }
                }
            }
        } else {
            assert forall|k: int| 0 <= k < next.stack.len() implies (#[trigger] next.stack[k]).node
                < edges.len() && next.stack[k].next <= edges[next.stack[k].node as int].len() by {
                assert(next.stack[k] == st.stack[k]);
            }
        }
    }
    lemma_frames_pending_bounds(edges, next.stack);
}

#[via_fn]
proof fn walk_run_decreases(edges: Seq<Seq<usize>>, entries: Seq<usize>, st: Walk) {
    if !walk_done(entries, st) {
        lemma_step_wf(edges, entries, st);
    }
}


spec fn on_stack(stack: Seq<Frame>, x: usize) -> bool {
    exists|k: int| 0 <= k < stack.len() && (#[trigger] stack[k]).node == x
}

/// The frame at `k` has last followed the edge to the node of the frame above it.
spec fn chained(edges: Seq<Seq<usize>>, stack: Seq<Frame>, k: int) -> bool {
    &&& stack[k].next >= 1
    &&& edges[stack[k].node as int][stack[k].next - 1] == stack[k + 1].node
}

/// The node `c`, to which the emitted node `out[i]` points, was entered, and it
/// was emitted no later than `out[i]` or lies on a cycle with it.
spec fn child_settled(
    edges: Seq<Seq<usize>>,
    out: Seq<usize>,
    visited: Seq<bool>,
    i: int,
    c: usize,
) -> bool {
    &&& visited[c as int]
    &&& (exists|m: int| 0 <= m <= i && #[trigger] out[m] == c) || reaches(edges, c, out[i])
}

/// What holds of every state that the walk passes through.
spec fn walk_inv(edges: Seq<Seq<usize>>, entries: Seq<usize>, st: Walk) -> bool {
    &&& walk_wf(edges, entries, st)
    &&& forall|x: usize|
        x < edges.len() ==> (#[trigger] st.visited[x as int] <==> (on_stack(st.stack, x)
            || st.out.contains(x)))
    &&& st.out.no_duplicates()
    &&& nodes_in(edges, st.out)
    &&& forall|k: int| 0 <= k < st.stack.len() ==> !st.out.contains((#[trigger] st.stack[k]).node)
    &&& forall|k: int, l: int|
        0 <= k < l < st.stack.len() ==> (#[trigger] st.stack[k]).node != (
        #[trigger] st.stack[l]).node
    &&& forall|k: int| 0 <= k < st.stack.len() - 1 ==> #[trigger] chained(edges, st.stack, k)
    &&& forall|k: int, j: int|
        0 <= k < st.stack.len() && 0 <= j < st.stack[k].next ==> st.visited[(
        #[trigger] edges[st.stack[k].node as int][j]) as int]
    &&& forall|i: int, j: int|
        0 <= i < st.out.len() && 0 <= j < edges[st.out[i] as int].len() ==> child_settled(
            edges,
            st.out,
            st.visited,
            i,
            #[trigger] edges[st.out[i] as int][j],
        )
    &&& forall|x: usize|
        x < edges.len() && #[trigger] st.visited[x as int] ==> reachable_from(edges, entries, x)
    &&& forall|i: int| 0 <= i < st.roots_done ==> st.visited[(#[trigger] entries[i]) as int]
}

/// Every node reaches itself.
pub proof fn lemma_reaches_self(edges: Seq<Seq<usize>>, x: usize)
    requires
        x < edges.len(),
    ensures
        reaches(edges, x, x),
{
    let p = seq![x];
    assert(is_path(edges, p));
    assert(p[0] == x && p.last() == x);
}

proof fn lemma_reaches_then_edge(edges: Seq<Seq<usize>>, a: usize, b: usize, c: usize)
    requires
        reaches(edges, a, b),
        c < edges.len(),
        edges[b as int].contains(c),
    ensures
        reaches(edges, a, c),
{
    let p = choose|p: Seq<usize>| #[trigger] is_path(edges, p) && p[0] == a && p.last() == b;
    let q = p.push(c);
    assert forall|i: int| 0 <= i < q.len() - 1 implies (#[trigger] edges[q[i] as int]).contains(
        q[i + 1],
    ) by {
        if i < p.len() - 1 {
            assert(q[i] == p[i] && q[i + 1] == p[i + 1]);
            assert(edges[p[i] as int].contains(p[i + 1]));
        } else {
            assert(q[i] == b && q[i + 1] == c);
        }
    }
    assert(is_path(edges, q));
    assert(q[0] == a && q.last() == c);
}

proof fn lemma_edge_then_reaches(edges: Seq<Seq<usize>>, a: usize, b: usize, c: usize)
    requires
        a < edges.len(),
        edges[a as int].contains(b),
        reaches(edges, b, c),
    ensures
        reaches(edges, a, c),
{
    let p = choose|p: Seq<usize>| #[trigger] is_path(edges, p) && p[0] == b && p.last() == c;
    let q = seq![a] + p;
    assert forall|i: int| 0 <= i < q.len() - 1 implies (#[trigger] edges[q[i] as int]).contains(
        q[i + 1],
    ) by {
        if i == 0 {
            assert(q[0] == a && q[1] == p[0]);
        } else {
            assert(q[i] == p[i - 1] && q[i + 1] == p[i]);
            assert(edges[p[i - 1] as int].contains(p[i - 1 + 1]));
        }
    }
    assert forall|i: int| 0 <= i < q.len() implies (#[trigger] q[i]) < edges.len() by {
        if i > 0 {
            assert(q[i] == p[i - 1]);
        }
    }
    assert(is_path(edges, q));
    assert(q[0] == a && q.last() == c);
}

/// Each node on the stack reaches the innermost one.
proof fn lemma_chain_reaches(edges: Seq<Seq<usize>>, stack: Seq<Frame>, k: int)
    requires
        edges_wf(edges),
        forall|k: int|
            0 <= k < stack.len() ==> (#[trigger] stack[k]).node < edges.len() && stack[k].next
                <= edges[stack[k].node as int].len(),
        forall|k: int| 0 <= k < stack.len() - 1 ==> #[trigger] chained(edges, stack, k),
        0 <= k < stack.len(),
    ensures
        reaches(edges, stack[k].node, stack.last().node),
    decreases stack.len() - k,
{
    if k == stack.len() - 1 {
        lemma_reaches_self(edges, stack[k].node);
    } else {
        lemma_chain_reaches(edges, stack, k + 1);
        assert(chained(edges, stack, k));
        let a = stack[k].node;
        let b = stack[k + 1].node;
        assert(edges[a as int][stack[k].next - 1] == b);
        assert(edges[a as int].contains(b));
        lemma_edge_then_reaches(edges, a, b, stack.last().node);
    }
}


/// Taking up an entry keeps the invariant.
proof fn lemma_step_inv_entry(edges: Seq<Seq<usize>>, entries: Seq<usize>, st: Walk)
    requires
        walk_inv(edges, entries, st),
        !walk_done(entries, st),
        st.stack.len() == 0,
    ensures
        walk_inv(edges, entries, walk_step(edges, entries, st)),
{
    let next = walk_step(edges, entries, st);
    lemma_step_wf(edges, entries, st);
    let r = entries[st.roots_done];
    assert(r < edges.len());
    if st.visited[r as int] {
        assert(walk_inv(edges, entries, next));
    } else {
        assert(next.stack[0].node == r);
        assert(!on_stack(st.stack, r));
        assert(!st.out.contains(r));
        assert forall|x: usize| x < edges.len() implies (#[trigger] next.visited[x as int] <==> (
        on_stack(next.stack, x) || next.out.contains(x))) by {
            if x == r {
                assert(on_stack(next.stack, x));
            } else {
                assert(next.visited[x as int] == st.visited[x as int]);
                assert(!on_stack(st.stack, x));
                assert(!on_stack(next.stack, x));
            }
        }
        assert forall|i: int, j: int|
            0 <= i < next.out.len() && 0 <= j < edges[next.out[i] as int].len() implies child_settled(
            edges,
            next.out,
            next.visited,
            i,
            #[trigger] edges[next.out[i] as int][j],
        ) by {
            assert(child_settled(edges, st.out, st.visited, i, edges[st.out[i] as int][j]));
        }
        assert forall|x: usize| x < edges.len() && #[trigger] next.visited[x as int] implies reachable_from(
            edges,
            entries,
            x,
        ) by {
            if x == r {
                lemma_reaches_self(edges, r);
                assert(reaches(edges, entries[st.roots_done], x));
            } else {
                assert(st.visited[x as int]);
            }
        }
        assert forall|i: int| 0 <= i < next.roots_done implies next.visited[(
        #[trigger] entries[i]) as int] by {
            if i < st.roots_done {
                assert(st.visited[entries[i] as int]);
            }
        }
        assert(walk_inv(edges, entries, next));
    }
}

/// Following an edge keeps the invariant.
proof fn lemma_step_inv_edge(edges: Seq<Seq<usize>>, entries: Seq<usize>, st: Walk)
    requires
        walk_inv(edges, entries, st),
        st.stack.len() > 0,
        st.stack.last().next < edges[st.stack.last().node as int].len(),
    ensures
        walk_inv(edges, entries, walk_step(edges, entries, st)),
{
    let next = walk_step(edges, entries, st);
    lemma_step_wf(edges, entries, st);
    let top = st.stack.last();
    let last = st.stack.len() - 1;
    assert(st.stack[last] == top);
    let u = top.node;
    let c = edges[u as int][top.next as int];
    assert(c < edges.len());
    assert(edges[u as int].len() <= usize::MAX);
    assert(edges[u as int].contains(c));
    let entered = !st.visited[c as int];
    assert forall|k: int| 0 <= k < st.stack.len() implies (#[trigger] next.stack[k]).node
        == st.stack[k].node && (k < last ==> next.stack[k] == st.stack[k]) by {}
    assert(next.stack[last].next == top.next + 1);
    if entered {
        assert(next.stack.len() == st.stack.len() + 1);
        assert(next.stack[last + 1] == Frame { node: c, next: 0 });
        assert(!on_stack(st.stack, c));
        assert(!st.out.contains(c));
    } else {
        assert(next.stack.len() == st.stack.len());
    }
    assert forall|x: usize| x < edges.len() implies (#[trigger] next.visited[x as int] <==> (
    on_stack(next.stack, x) || next.out.contains(x))) by {
        if on_stack(st.stack, x) {
            let k = choose|k: int| 0 <= k < st.stack.len() && (#[trigger] st.stack[k]).node == x;
            assert(next.stack[k].node == x);
            assert(on_stack(next.stack, x));
        }
        if on_stack(next.stack, x) {
            let k = choose|k: int|
                0 <= k < next.stack.len() && (#[trigger] next.stack[k]).node == x;
            if k <= last {
                assert(st.stack[k].node == x);
                assert(on_stack(st.stack, x));
            } else {
                assert(x == c);
            }
        }
        if entered && x == c {
            assert(next.stack[last + 1].node == c);
            assert(on_stack(next.stack, x));
        } else {
            assert(next.visited[x as int] == st.visited[x as int]);
        }
    }
    assert forall|k: int| 0 <= k < next.stack.len() implies !next.out.contains(
        (#[trigger] next.stack[k]).node,
    ) by {
        if k <= last {
            assert(!st.out.contains(st.stack[k].node));
        }
    }
    assert forall|k: int, l: int| 0 <= k < l < next.stack.len() implies (
    #[trigger] next.stack[k]).node != (#[trigger] next.stack[l]).node by {
        if l <= last {
            assert(st.stack[k].node != st.stack[l].node);
        } else {
            assert(st.stack[k].node != c);
        }
    }
    assert forall|k: int| 0 <= k < next.stack.len() - 1 implies #[trigger] chained(
        edges,
        next.stack,
        k,
    ) by {
        if k < last {
            assert(chained(edges, st.stack, k));
        }
    }
    assert forall|k: int, j: int|
        0 <= k < next.stack.len() && 0 <= j < next.stack[k].next implies next.visited[(
    #[trigger] edges[next.stack[k].node as int][j]) as int] by {
        if k < last {
            assert(st.visited[edges[st.stack[k].node as int][j] as int]);
        } else if k == last {
            if j < top.next {
                assert(st.visited[edges[st.stack[k].node as int][j] as int]);
            }
        }
    }
    assert forall|i: int, j: int|
        0 <= i < next.out.len() && 0 <= j < edges[next.out[i] as int].len() implies child_settled(
        edges,
        next.out,
        next.visited,
        i,
        #[trigger] edges[next.out[i] as int][j],
    ) by {
        assert(child_settled(edges, st.out, st.visited, i, edges[st.out[i] as int][j]));
    }
    assert forall|x: usize| x < edges.len() && #[trigger] next.visited[x as int] implies reachable_from(
        edges,
        entries,
        x,
    ) by {
        if entered && x == c {
            assert(on_stack(st.stack, u));
            assert(st.visited[u as int]);
            assert(reachable_from(edges, entries, u));
            let i = choose|i: int| 0 <= i < entries.len() && #[trigger] reaches(edges, entries[i], u);
            lemma_reaches_then_edge(edges, entries[i], u, c);
        } else {
            assert(st.visited[x as int]);
        }
    }
    assert forall|i: int| 0 <= i < next.roots_done implies next.visited[(
    #[trigger] entries[i]) as int] by {
        assert(st.visited[entries[i] as int]);
    }
    assert(walk_inv(edges, entries, next));
}

/// Leaving a node keeps the invariant.
proof fn lemma_step_inv_leave(edges: Seq<Seq<usize>>, entries: Seq<usize>, st: Walk)
    requires
        walk_inv(edges, entries, st),
        st.stack.len() > 0,
        st.stack.last().next >= edges[st.stack.last().node as int].len(),
    ensures
        walk_inv(edges, entries, walk_step(edges, entries, st)),
{
    let next = walk_step(edges, entries, st);
    lemma_step_wf(edges, entries, st);
    let top = st.stack.last();
    let last = st.stack.len() - 1;
    assert(st.stack[last] == top);
    let u = top.node;
    let old_len = st.out.len() as int;
    assert(!st.out.contains(u));
    assert(next.out[old_len] == u);
    assert forall|k: int| 0 <= k < next.stack.len() implies #[trigger] next.stack[k]
        == st.stack[k] by {}
    assert forall|x: usize| x < edges.len() implies (#[trigger] next.visited[x as int] <==> (
    on_stack(next.stack, x) || next.out.contains(x))) by {
        if x == u {
            assert(on_stack(st.stack, u));
            assert(next.out.contains(x));
        } else {
            if on_stack(st.stack, x) {
                let k = choose|k: int|
                    0 <= k < st.stack.len() && (#[trigger] st.stack[k]).node == x;
                assert(next.stack[k].node == x);
                assert(on_stack(next.stack, x));
            }
            if on_stack(next.stack, x) {
                let k = choose|k: int|
                    0 <= k < next.stack.len() && (#[trigger] next.stack[k]).node == x;
                assert(st.stack[k].node == x);
                assert(on_stack(st.stack, x));
            }
            if st.out.contains(x) {
                let m = choose|m: int| 0 <= m < st.out.len() && st.out[m] == x;
                assert(next.out[m] == x);
            }
            if next.out.contains(x) {
                let m = choose|m: int| 0 <= m < next.out.len() && next.out[m] == x;
                assert(st.out[m] == x);
            }
        }
    }
    assert(next.out.no_duplicates()) by {
        assert forall|i: int, j: int|
            0 <= i < next.out.len() && 0 <= j < next.out.len() && i != j implies next.out[i]
            != next.out[j] by {
            if i < old_len && j < old_len {
                assert(st.out[i] != st.out[j]);
            } else if i < old_len {
                assert(st.out.contains(st.out[i]));
            } else {
                assert(st.out.contains(st.out[j]));
            }
        }
    }
    assert forall|k: int| 0 <= k < next.stack.len() implies !next.out.contains(
        (#[trigger] next.stack[k]).node,
    ) by {
        assert(!st.out.contains(st.stack[k].node));
        assert(st.stack[k].node != st.stack[last].node);
        if next.out.contains(next.stack[k].node) {
            let m = choose|m: int|
                0 <= m < next.out.len() && next.out[m] == next.stack[k].node;
            if m < old_len {
                assert(st.out[m] == st.stack[k].node);
            }
        }
    }
    assert forall|k: int, l: int| 0 <= k < l < next.stack.len() implies (
    #[trigger] next.stack[k]).node != (#[trigger] next.stack[l]).node by {
        assert(st.stack[k].node != st.stack[l].node);
    }
    assert forall|k: int| 0 <= k < next.stack.len() - 1 implies #[trigger] chained(
        edges,
        next.stack,
        k,
    ) by {
        assert(chained(edges, st.stack, k));
    }
    assert forall|k: int, j: int|
        0 <= k < next.stack.len() && 0 <= j < next.stack[k].next implies next.visited[(
    #[trigger] edges[next.stack[k].node as int][j]) as int] by {
        assert(st.visited[edges[st.stack[k].node as int][j] as int]);
    }
    assert forall|i: int, j: int|
        0 <= i < next.out.len() && 0 <= j < edges[next.out[i] as int].len() implies child_settled(
        edges,
        next.out,
        next.visited,
        i,
        #[trigger] edges[next.out[i] as int][j],
    ) by {
        let c = edges[next.out[i] as int][j];
        if i < old_len {
            assert(next.out[i] == st.out[i]);
            assert(child_settled(edges, st.out, st.visited, i, edges[st.out[i] as int][j]));
            if exists|m: int| 0 <= m <= i && #[trigger] st.out[m] == c {
                let m = choose|m: int| 0 <= m <= i && #[trigger] st.out[m] == c;
                assert(next.out[m] == c);
            }
        } else {
            assert(next.out[i] == u);
            assert(st.visited[edges[st.stack[last].node as int][j] as int]);
            assert(c < edges.len());
            if st.out.contains(c) {
                let m = choose|m: int| 0 <= m < st.out.len() && st.out[m] == c;
                assert(next.out[m] == c);
            } else {
                assert(on_stack(st.stack, c));
                let k = choose|k: int|
                    0 <= k < st.stack.len() && (#[trigger] st.stack[k]).node == c;
                lemma_chain_reaches(edges, st.stack, k);
            }
        }
    }
    assert(nodes_in(edges, next.out)) by {
        assert forall|i: int| 0 <= i < next.out.len() implies (#[trigger] next.out[i])
            < edges.len() by {
            if i < old_len {
                assert(st.out[i] < edges.len());
            }
        }
    }
    assert(walk_inv(edges, entries, next));
}

proof fn lemma_step_inv(edges: Seq<Seq<usize>>, entries: Seq<usize>, st: Walk)
    requires
        walk_inv(edges, entries, st),
        !walk_done(entries, st),
    ensures
        walk_inv(edges, entries, walk_step(edges, entries, st)),
{
    if st.stack.len() == 0 {
        lemma_step_inv_entry(edges, entries, st);
    } else if st.stack.last().next < edges[st.stack.last().node as int].len() {
        lemma_step_inv_edge(edges, entries, st);
    } else {
        lemma_step_inv_leave(edges, entries, st);
    }
}


/// The walk ends, and it ends in a state of which the invariant holds.
proof fn lemma_run_inv(edges: Seq<Seq<usize>>, entries: Seq<usize>, st: Walk)
    requires
        walk_inv(edges, entries, st),
    ensures
        walk_inv(edges, entries, walk_run(edges, entries, st)),
        walk_done(entries, walk_run(edges, entries, st)),
    decreases unvisited(st.visited), entries.len() - st.roots_done + frames_pending(edges, st.stack),
{
    if !walk_done(entries, st) {
        lemma_step_wf(edges, entries, st);
        lemma_step_inv(edges, entries, st);
        lemma_run_inv(edges, entries, walk_step(edges, entries, st));
    }
}

proof fn lemma_start_inv(edges: Seq<Seq<usize>>, entries: Seq<usize>)
    requires
        edges_wf(edges),
        nodes_in(edges, entries),
    ensures
        walk_inv(edges, entries, walk_start(edges)),
{
    let st = walk_start(edges);
    assert forall|x: usize| x < edges.len() implies (#[trigger] st.visited[x as int] <==> (
    on_stack(st.stack, x) || st.out.contains(x))) by {
        assert(!on_stack(st.stack, x));
    }
}

/// In a state in which the walk has ended, every node on a path that starts at
/// an emitted node was emitted.
proof fn lemma_closed_under_paths(
    edges: Seq<Seq<usize>>,
    entries: Seq<usize>,
    st: Walk,
    p: Seq<usize>,
    i: int,
)
    requires
        walk_inv(edges, entries, st),
        walk_done(entries, st),
        is_path(edges, p),
        st.out.contains(p[0]),
        0 <= i < p.len(),
    ensures
        st.out.contains(p[i]),
    decreases i,
{
    if i > 0 {
        lemma_closed_under_paths(edges, entries, st, p, i - 1);
        let a = p[i - 1];
        let m = choose|m: int| 0 <= m < st.out.len() && st.out[m] == a;
        assert(edges[p[i - 1] as int].contains(p[i - 1 + 1]));
        let j = choose|j: int| 0 <= j < edges[a as int].len() && edges[a as int][j] == p[i];
        assert(child_settled(edges, st.out, st.visited, m, edges[st.out[m] as int][j]));
        assert(st.visited[p[i] as int]);
        assert(!on_stack(st.stack, p[i]));
    }
}

/// Reaching is transitive.
pub proof fn lemma_reaches_transitive(edges: Seq<Seq<usize>>, a: usize, b: usize, c: usize)
    requires
        reaches(edges, a, b),
        reaches(edges, b, c),
    ensures
        reaches(edges, a, c),
{
    let q = choose|q: Seq<usize>| #[trigger] is_path(edges, q) && q[0] == b && q.last() == c;
    lemma_reaches_along(edges, a, q, q.len() - 1);
}

proof fn lemma_reaches_along(edges: Seq<Seq<usize>>, a: usize, q: Seq<usize>, i: int)
    requires
        is_path(edges, q),
        reaches(edges, a, q[0]),
        0 <= i < q.len(),
    ensures
        reaches(edges, a, q[i]),
    decreases i,
{
    if i > 0 {
        lemma_reaches_along(edges, a, q, i - 1);
        assert(edges[q[i - 1] as int].contains(q[i - 1 + 1]));
        lemma_reaches_then_edge(edges, a, q[i - 1], q[i]);
    }
}

/// What the walk yields: no node twice; exactly the nodes that can be reached
/// from the entries; and a node after the nodes it points to, except where the
/// two lie on a cycle.
pub proof fn lemma_parallel_chunks(edges: Seq<Seq<usize>>, entries: Seq<usize>)
    requires
        edges_wf(edges),
        nodes_in(edges, entries),
    ensures
        parallel_chunks_of(edges, entries).no_duplicates(),
        nodes_in(edges, parallel_chunks_of(edges, entries)),
        forall|x: usize|
            parallel_chunks_of(edges, entries).contains(x) <==> reachable_from(edges, entries, x),
        forall|i: int, j: int|
            0 <= i < j < parallel_chunks_of(edges, entries).len() && edges[parallel_chunks_of(
                edges,
                entries,
            )[i] as int].contains(parallel_chunks_of(edges, entries)[j]) ==> reaches(
                edges,
                parallel_chunks_of(edges, entries)[j],
                parallel_chunks_of(edges, entries)[i],
            ),
{
    let start = walk_start(edges);
    lemma_start_inv(edges, entries);
    lemma_run_inv(edges, entries, start);
    let end = walk_run(edges, entries, start);
    let out = end.out;
    assert(out == parallel_chunks_of(edges, entries));
    assert forall|x: usize| out.contains(x) <==> reachable_from(edges, entries, x) by {
        if out.contains(x) {
            let m = choose|m: int| 0 <= m < out.len() && out[m] == x;
            assert(out[m] < edges.len());
            assert(end.visited[x as int]);
        }
        if reachable_from(edges, entries, x) {
            let i = choose|i: int| 0 <= i < entries.len() && #[trigger] reaches(edges, entries[i], x);
            let p = choose|p: Seq<usize>| #[trigger]
                is_path(edges, p) && p[0] == entries[i] && p.last() == x;
            assert(end.visited[entries[i] as int]);
            assert(!on_stack(end.stack, entries[i]));
            lemma_closed_under_paths(edges, entries, end, p, p.len() - 1);
        }
    }
    assert forall|i: int, j: int|
        0 <= i < j < out.len() && edges[out[i] as int].contains(out[j]) implies reaches(
        edges,
        out[j],
        out[i],
    ) by {
        let k = choose|k: int| 0 <= k < edges[out[i] as int].len() && edges[out[i] as int][k] == out[j];
        assert(child_settled(edges, end.out, end.visited, i, edges[end.out[i] as int][k]));
        if exists|m: int| 0 <= m <= i && #[trigger] out[m] == out[j] {
            let m = choose|m: int| 0 <= m <= i && #[trigger] out[m] == out[j];
            assert(m != j);
        }
    }
}

/// Walking again from what a walk has yielded finds the same nodes: what loads
/// together with the entries is closed.
pub proof fn lemma_parallel_chunks_closed(edges: Seq<Seq<usize>>, entries: Seq<usize>)
    requires
        edges_wf(edges),
        nodes_in(edges, entries),
    ensures
        forall|x: usize|
            parallel_chunks_of(edges, parallel_chunks_of(edges, entries)).contains(x)
                <==> parallel_chunks_of(edges, entries).contains(x),
{
    let first = parallel_chunks_of(edges, entries);
    lemma_parallel_chunks(edges, entries);
    lemma_parallel_chunks(edges, first);
    let second = parallel_chunks_of(edges, first);
    assert forall|x: usize| second.contains(x) <==> first.contains(x) by {
        if second.contains(x) {
            assert(reachable_from(edges, first, x));
            let i = choose|i: int| 0 <= i < first.len() && #[trigger] reaches(edges, first[i], x);
            assert(first.contains(first[i]));
            assert(reachable_from(edges, entries, first[i]));
            let k = choose|k: int|
                0 <= k < entries.len() && #[trigger] reaches(edges, entries[k], first[i]);
            lemma_reaches_transitive(edges, entries[k], first[i], x);
            assert(reachable_from(edges, entries, x));
        }
        if first.contains(x) {
            let m = choose|m: int| 0 <= m < first.len() && first[m] == x;
            assert(first[m] < edges.len());
            lemma_reaches_self(edges, x);
            assert(reaches(edges, first[m], x));
            assert(reachable_from(edges, first, x));
        }
    }
}


/// From a state of the walk on, graphs that agree on what can be reached from
/// the entries are walked alike.
proof fn lemma_run_agrees(
    edges: Seq<Seq<usize>>,
    other: Seq<Seq<usize>>,
    entries: Seq<usize>,
    st: Walk,
)
    requires
        walk_inv(edges, entries, st),
        edges_wf(other),
        edges.len() == other.len(),
        forall|x: usize|
            x < edges.len() && reachable_from(edges, entries, x) ==> #[trigger] edges[x as int]
                == other[x as int],
    ensures
        walk_run(edges, entries, st) == walk_run(other, entries, st),
    decreases unvisited(st.visited), entries.len() - st.roots_done + frames_pending(edges, st.stack),
{
    assert forall|k: int| 0 <= k < st.stack.len() implies (#[trigger] st.stack[k]).node
        < other.len() && st.stack[k].next <= other[st.stack[k].node as int].len() by {
        let node = st.stack[k].node;
        assert(on_stack(st.stack, node));
        assert(st.visited[node as int]);
        assert(edges[node as int] == other[node as int]);
    }
    assert(walk_wf(other, entries, st));
    if !walk_done(entries, st) {
        if st.stack.len() > 0 {
            let node = st.stack.last().node;
            assert(st.stack[st.stack.len() - 1].node == node);
            assert(on_stack(st.stack, node));
            assert(st.visited[node as int]);
            assert(edges[node as int] == other[node as int]);
        }
        assert(walk_step(edges, entries, st) == walk_step(other, entries, st));
        lemma_step_wf(edges, entries, st);
        lemma_step_inv(edges, entries, st);
        lemma_run_agrees(edges, other, entries, walk_step(edges, entries, st));
    }
}

/// The walk looks only at what can be reached from the entries: graphs that
/// agree there yield the same chunks in the same order.
pub proof fn lemma_parallel_chunks_local(
    edges: Seq<Seq<usize>>,
    other: Seq<Seq<usize>>,
    entries: Seq<usize>,
)
    requires
        edges_wf(edges),
        edges_wf(other),
        edges.len() == other.len(),
        nodes_in(edges, entries),
        forall|x: usize|
            x < edges.len() && reachable_from(edges, entries, x) ==> #[trigger] edges[x as int]
                == other[x as int],
    ensures
        parallel_chunks_of(edges, entries) == parallel_chunks_of(other, entries),
{
    lemma_start_inv(edges, entries);
    assert(walk_start(edges) == walk_start(other)) by {
        assert(walk_start(edges).visited =~= walk_start(other).visited);
    }
    lemma_run_agrees(edges, other, entries, walk_start(edges));
}

/// A graph as the walk sees it: its nodes are named by the numbers below
/// their count, and each node can be asked for the nodes it points to, one
/// edge at a time.
pub trait Expand {
    /// For each node the nodes it points to.
    spec fn expansion(&self) -> Seq<Seq<usize>>;

    /// The number of nodes.
    fn node_count(&self) -> (count: usize)
        ensures
            count == self.expansion().len(),
    ;

    /// The node to which the edge number `edge` of `node` leads; none where
    /// `node` has no such edge.
    fn expand(&self, node: usize, edge: usize) -> (target: Option<usize>)
        requires
            node < self.expansion().len(),
        ensures
            target == if edge < self.expansion()[node as int].len() {
                Some(self.expansion()[node as int][edge as int])
            } else {
                None
            },
    ;
}

/// Walks `graph` from `entries` and returns each node that can be reached,
/// once, when all the nodes it points to have been dealt with.
///
/// The result holds no node twice and exactly the nodes that can be reached
/// from `entries`. A node stands after the nodes it points to, except where
/// the two lie on a cycle. The order is that of the walk, so the same graph
/// and entries give the same list.
pub fn reverse_topological<G: Expand>(graph: &G, entries: &Vec<usize>) -> (nodes: Vec<usize>)
    requires
        edges_wf(graph.expansion()),
        nodes_in(graph.expansion(), entries@),
    ensures
        nodes@ == parallel_chunks_of(graph.expansion(), entries@),
        nodes@.no_duplicates(),
        nodes_in(graph.expansion(), nodes@),
        forall|x: usize| nodes@.contains(x) <==> reachable_from(graph.expansion(), entries@, x),
        forall|i: int, j: int|
            0 <= i < j < nodes@.len() && graph.expansion()[nodes@[i] as int].contains(nodes@[j])
                ==> reaches(graph.expansion(), nodes@[j], nodes@[i]),
{
    let ghost edges = graph.expansion();
    let n = graph.node_count();
    let mut visited: Vec<bool> = Vec::new();
    while visited.len() < n
        invariant
            visited@.len() <= n,
            forall|i: int| 0 <= i < visited@.len() ==> !visited@[i],
        decreases n - visited@.len(),
    {
        visited.push(false);
    }
    let mut stack: Vec<Frame> = Vec::new();
    let mut nodes: Vec<usize> = Vec::new();
    let mut roots_done: usize = 0;
    assert(walk_start(edges) == (Walk {
        roots_done: 0,
        stack: stack@,
        visited: visited@,
        out: nodes@,
    })) by {
        assert(visited@ =~= walk_start(edges).visited);
    }
    while !(stack.len() == 0 && roots_done >= entries.len())
        invariant
            edges == graph.expansion(),
            walk_wf(
                edges,
                entries@,
                Walk { roots_done: roots_done as int, stack: stack@, visited: visited@, out: nodes@ },
            ),
            walk_run(
                edges,
                entries@,
                Walk { roots_done: roots_done as int, stack: stack@, visited: visited@, out: nodes@ },
            ) == walk_run(edges, entries@, walk_start(edges)),
        decreases unvisited(visited@), entries@.len() - roots_done + frames_pending(edges, stack@),
    {
        let ghost cur = Walk {
            roots_done: roots_done as int,
            stack: stack@,
            visited: visited@,
            out: nodes@,
        };
        proof {
            lemma_step_wf(edges, entries@, cur);
        }
        if stack.len() == 0 {
            let r = entries[roots_done];
            roots_done += 1;
            if !visited[r] {
                visited.set(r, true);
                stack.push(Frame { node: r, next: 0 });
            }
        } else {
            let last = stack.len() - 1;
            let top = stack[last];
            match graph.expand(top.node, top.next) {
                Some(c) => {
                    assert(edges[top.node as int].len() <= usize::MAX);
                    stack.set(last, Frame { node: top.node, next: top.next + 1 });
                    if !visited[c] {
                        visited.set(c, true);
                        stack.push(Frame { node: c, next: 0 });
                    }
                },
                None => {
                    stack.pop();
                    nodes.push(top.node);
                },
            }
        }
        proof {
            let next = Walk {
                roots_done: roots_done as int,
                stack: stack@,
                visited: visited@,
                out: nodes@,
            };
            let step = walk_step(edges, entries@, cur);
            assert(next.stack =~= step.stack);
            assert(next.visited =~= step.visited);
            assert(next.out =~= step.out);
            assert(next == step);
        }
    }
    proof {
        lemma_parallel_chunks(edges, entries@);
    }
    nodes
}

/// Finds every chunk that has to load together with `entries`.
///
/// The result holds no chunk twice and exactly the chunks that can be reached
/// from `entries` along the graph's parallel-chunk edges. A chunk stands after
/// the chunks that load together with it, except where the two lie on a cycle.
/// The order is that of the walk, so the same graph and entries give the same
/// list.
pub fn get_parallel_chunks(graph: &ChunkGraph, entries: &Vec<usize>) -> (chunks: Vec<usize>)
    requires
        graph.wf(),
        nodes_in(graph.edges(), entries@),
    ensures
        chunks@ == parallel_chunks_of(graph.edges(), entries@),
        chunks@.no_duplicates(),
        nodes_in(graph.edges(), chunks@),
        forall|x: usize| chunks@.contains(x) <==> reachable_from(graph.edges(), entries@, x),
        forall|i: int, j: int|
            0 <= i < j < chunks@.len() && graph.edges()[chunks@[i] as int].contains(chunks@[j])
                ==> reaches(graph.edges(), chunks@[j], chunks@[i]),
{
    reverse_topological(graph, entries)
}

} // verus!

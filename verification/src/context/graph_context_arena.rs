use crate::context::graph_state::{GraphState, GraphStateView};
use crate::ids::{GraphContextId, GraphId, SubContextId};
use crate::platform::{
    hierarchy_clone, hierarchy_entries, hierarchy_get, hierarchy_insert, hierarchy_list, hierarchy_new,
    HierarchyMap,
};
use vstd::prelude::*;
use vstd::set_lib::{lemma_int_range, lemma_len_subset, set_int_range};

verus! {

/// Child contexts by where they hang.
pub type Hierarchy = Map<SubContextId, GraphContextId>;

/// `x` is the child of some context in `h`.
pub open spec fn has_parent(h: Hierarchy, x: int) -> bool {
    exists|k: SubContextId| #[trigger] h.contains_key(k) && h[k].0 == x
}

/// The context that `x` hangs in, when `has_parent(h, x)`.
pub open spec fn parent(h: Hierarchy, x: int) -> int {
    (choose|k: SubContextId| #[trigger] h.contains_key(k) && h[k].0 == x).ctx_id.0 as int
}

/// `x` is `root` or, through its chain of parents, hangs below `root`.
pub open spec fn in_subtree(h: Hierarchy, x: int, root: int) -> bool
    decreases x,
{
    if x == root {
        true
    } else if has_parent(h, x) && 0 <= parent(h, x) < x {
        in_subtree(h, parent(h, x), root)
    } else {
        false
    }
}

/// Every child hangs in a context made before it, all children exist, and no context is
/// the child of two places.
pub open spec fn hierarchy_ok(h: Hierarchy, n: nat) -> bool {
    &&& forall|k: SubContextId| #[trigger] h.contains_key(k) ==> k.ctx_id.0 < h[k].0 < n
    &&& forall|k1: SubContextId, k2: SubContextId|
        #[trigger] h.contains_key(k1) && #[trigger] h.contains_key(k2) && h[k1] == h[k2] ==> k1
            == k2
}

/// What an arena of graph contexts holds.
pub struct ArenaView<S, D, U, R> {
    pub contexts: Seq<GraphStateView<S, D, U, R>>,
    pub hierarchy: Hierarchy,
    pub top_level_context: GraphContextId,
    pub frame_index: u64,
}

impl<S, D, U, R> ArenaView<S, D, U, R> {
    /// The contexts after `reset` of the subtree hanging below `start`: each context in
    /// it is replaced by an empty one, `start` for `graph_id` and every other for the
    /// graph it already evaluated; the other contexts are kept.
    pub open spec fn reset_below(
        contexts: Seq<GraphStateView<S, D, U, R>>,
        h: Hierarchy,
        start: int,
        graph_id: GraphId,
    ) -> Seq<GraphStateView<S, D, U, R>> {
        Seq::new(
            contexts.len(),
            |x: int|
                if in_subtree(h, x, start) {
                    GraphStateView::fresh(
                        if x == start {
                            graph_id
                        } else {
                            contexts[x].graph_id
                        },
                    )
                } else {
                    contexts[x]
                },
        )
    }

    /// How `get_sub_context_or_insert_default(sub, graph_id)` relates the arena before
    /// (`self`) to the arena after (`post`) and the context it returns (`id`).
    pub open spec fn sub_context_step(
        self,
        sub: SubContextId,
        graph_id: GraphId,
        id: GraphContextId,
        post: Self,
    ) -> bool {
        let n = self.contexts.len();
        let existed = self.hierarchy.contains_key(sub);
        let contexts1 = if existed {
            self.contexts
        } else {
            self.contexts.push(GraphStateView::fresh(graph_id))
        };
        &&& existed ==> id == self.hierarchy[sub] && post.hierarchy == self.hierarchy
        &&& !existed ==> id.0 == n && post.hierarchy == self.hierarchy.insert(sub, id)
        &&& post.contexts == (if contexts1[id.0 as int].graph_id == graph_id {
            contexts1
        } else {
            Self::reset_below(contexts1, post.hierarchy, id.0 as int, graph_id)
        })
        &&& post.top_level_context == self.top_level_context
        &&& post.frame_index == self.frame_index
    }
}

impl<S: Clone, D: Clone, U: Clone, R: Clone> ArenaView<S, D, U, R> {
    /// `self` holds clones of the contexts of `other`, with the same links and counters.
    pub open spec fn is_clone_of(self, other: Self) -> bool {
        &&& self.contexts.len() == other.contexts.len()
        &&& forall|i: int|
            0 <= i < other.contexts.len() ==> #[trigger] self.contexts[i].is_clone_of(
                other.contexts[i],
            )
        &&& self.hierarchy == other.hierarchy
        &&& self.top_level_context == other.top_level_context
        &&& self.frame_index == other.frame_index
    }
}

/// All graph contexts of one animation graph player: the top-level one and one per
/// place where a sub-graph is evaluated, with the frame counter.
#[derive(Debug)]
pub struct GraphContextArena<S, D, U, R> {
    contexts: Vec<GraphState<S, D, U, R>>,
    hierarchy: HierarchyMap,
    top_level_context: GraphContextId,
    frame_index: u64,
}

spec fn context_views<S, D, U, R>(v: Seq<GraphState<S, D, U, R>>) -> Seq<
    GraphStateView<S, D, U, R>,
> {
    v.map_values(|g: GraphState<S, D, U, R>| g@)
}

impl<S, D, U, R> View for GraphContextArena<S, D, U, R> {
    type V = ArenaView<S, D, U, R>;

    closed spec fn view(&self) -> ArenaView<S, D, U, R> {
        ArenaView {
            contexts: context_views(self.contexts@),
            hierarchy: hierarchy_entries(self.hierarchy),
            top_level_context: self.top_level_context,
            frame_index: self.frame_index,
        }
    }
}

/// A context in the subtree below `root` is not made before `root`.
pub proof fn lemma_subtree_not_before(h: Hierarchy, x: int, root: int)
    requires
        in_subtree(h, x, root),
    ensures
        root <= x,
    decreases x,
{
    if x != root {
        lemma_subtree_not_before(h, parent(h, x), root);
    }
}

/// A child's parent is the context of the place it hangs in.
pub proof fn lemma_parent_of_child(h: Hierarchy, n: nat, k: SubContextId)
    requires
        hierarchy_ok(h, n),
        h.contains_key(k),
    ensures
        has_parent(h, h[k].0 as int),
        parent(h, h[k].0 as int) == k.ctx_id.0,
{
    let x = h[k].0 as int;
    assert(h.contains_key(k) && h[k].0 == x);
    let k2 = choose|k2: SubContextId| #[trigger] h.contains_key(k2) && h[k2].0 == x;
    assert(h[k2] == h[k]);
}


/// Some entry of `s` is the context `x`.
spec fn holds_id(s: Seq<GraphContextId>, x: int) -> bool {
    exists|i: int| 0 <= i < s.len() && #[trigger] s[i].0 == x
}

/// Every context of the subtree below `start` that is neither done nor waiting hangs in a
/// context that is not done either.
spec fn all_reachable(h: Hierarchy, n: nat, start: int, visited: Set<int>, pending: Seq<GraphContextId>) -> bool {
    forall|x: int|
        0 <= x < n && #[trigger] in_subtree(h, x, start) && !visited.contains(x) && !holds_id(
            pending,
            x,
        ) ==> x != start && has_parent(h, x) && !visited.contains(parent(h, x))
}

/// What `all_reachable` keeps once `current` is done and before its children are queued.
spec fn all_reachable_or_child(
    h: Hierarchy,
    n: nat,
    start: int,
    visited: Set<int>,
    pending: Seq<GraphContextId>,
    current: int,
) -> bool {
    forall|x: int|
        0 <= x < n && #[trigger] in_subtree(h, x, start) && !visited.contains(x) && !holds_id(
            pending,
            x,
        ) ==> x != start && has_parent(h, x) && (!visited.contains(parent(h, x)) || parent(h, x)
            == current)
}

/// A queued context is in the subtree, not done yet, and is `start` or hangs in a context
/// that is done.
spec fn pending_ok(h: Hierarchy, n: nat, start: int, visited: Set<int>, pending: Seq<GraphContextId>) -> bool {
    &&& forall|i: int, j: int| 0 <= i < j < pending.len() ==> pending[i] != pending[j]
    &&& forall|i: int|
        #![trigger pending[i]]
        0 <= i < pending.len() ==> {
            let p = pending[i].0 as int;
            &&& 0 <= p < n
            &&& in_subtree(h, p, start)
            &&& !visited.contains(p)
            &&& (p == start || (has_parent(h, p) && visited.contains(parent(h, p))))
        }
}

/// A context that is done is in the subtree, and is `start` or hangs in a context that is
/// done.
spec fn visited_ok(h: Hierarchy, n: nat, start: int, visited: Set<int>) -> bool {
    &&& visited.finite()
    &&& forall|v: int|
        #[trigger] visited.contains(v) ==> 0 <= v < n && in_subtree(h, v, start) && (v == start || (
        has_parent(h, v) && visited.contains(parent(h, v))))
}

/// `start`'s parent, if any, comes before it, so no context of the subtree is its parent.
proof fn lemma_not_parent_of_start(h: Hierarchy, n: nat, start: int, current: int, k: SubContextId)
    requires
        hierarchy_ok(h, n),
        h.contains_key(k),
        k.ctx_id.0 == current,
        in_subtree(h, current, start),
    ensures
        h[k].0 != start,
{
    lemma_subtree_not_before(h, current, start);
}

/// Taking the last queued context and marking it done keeps the queue and the done set
/// consistent, except that the children of that context are still to be queued.
proof fn lemma_visit_step(
    h: Hierarchy,
    n: nat,
    start: int,
    visited: Set<int>,
    before: Seq<GraphContextId>,
)
    requires
        hierarchy_ok(h, n),
        visited_ok(h, n, start, visited),
        pending_ok(h, n, start, visited, before),
        all_reachable(h, n, start, visited, before),
        before.len() > 0,
    ensures
        ({
            let cur = before.last().0 as int;
            let v = visited.insert(cur);
            let p0 = before.drop_last();
            &&& 0 <= cur < n
            &&& in_subtree(h, cur, start)
            &&& !visited.contains(cur)
            &&& visited_ok(h, n, start, v)
            &&& pending_ok(h, n, start, v, p0)
            &&& all_reachable_or_child(h, n, start, v, p0, cur)
            &&& v.len() <= n
        }),
{
    let last = before.len() - 1;
    assert(before[last] == before.last());
    let cur = before.last().0 as int;
    lemma_visit_pending(h, n, start, visited, before);
    lemma_visit_visited(h, n, start, visited, cur);
    lemma_visit_reachable(h, n, start, visited, before);
    let v = visited.insert(cur);
    lemma_int_range(0, n as int);
    assert(v.subset_of(set_int_range(0, n as int)));
    lemma_len_subset(v, set_int_range(0, n as int));
}

proof fn lemma_visit_pending(h: Hierarchy, n: nat, start: int, visited: Set<int>, before: Seq<GraphContextId>)
    requires
        pending_ok(h, n, start, visited, before),
        before.len() > 0,
    ensures
        pending_ok(h, n, start, visited.insert(before.last().0 as int), before.drop_last()),
        pending_ok(h, n, start, visited, before.drop_last()),
{
    let last = before.len() - 1;
    let cur = before.last().0 as int;
    let v = visited.insert(cur);
    let p0 = before.drop_last();
    assert(before[last] == before.last());
    assert forall|i: int| #![trigger p0[i]] 0 <= i < p0.len() implies {
        let p = p0[i].0 as int;
        &&& 0 <= p < n
        &&& in_subtree(h, p, start)
        &&& !v.contains(p)
        &&& (p == start || (has_parent(h, p) && v.contains(parent(h, p))))
    } by {
        assert(p0[i] == before[i]);
        assert(before[i] != before[last]);
    }
    assert forall|i: int, j: int| 0 <= i < j < p0.len() implies p0[i] != p0[j] by {
        assert(p0[i] == before[i] && p0[j] == before[j]);
    }
    assert forall|i: int| #![trigger p0[i]] 0 <= i < p0.len() implies {
        let p = p0[i].0 as int;
        &&& 0 <= p < n
        &&& in_subtree(h, p, start)
        &&& !visited.contains(p)
        &&& (p == start || (has_parent(h, p) && visited.contains(parent(h, p))))
    } by {
        assert(p0[i] == before[i]);
    }
}

proof fn lemma_visit_visited(h: Hierarchy, n: nat, start: int, visited: Set<int>, cur: int)
    requires
        visited_ok(h, n, start, visited),
        0 <= cur < n,
        in_subtree(h, cur, start),
        cur == start || (has_parent(h, cur) && visited.contains(parent(h, cur))),
    ensures
        visited_ok(h, n, start, visited.insert(cur)),
{
    let v = visited.insert(cur);
    assert forall|vv: int| #[trigger] v.contains(vv) implies 0 <= vv < n && in_subtree(h, vv, start) && (vv == start || (
        has_parent(h, vv) && v.contains(parent(h, vv)))) by {
        if vv != cur {
            assert(visited.contains(vv));
        }
    }
}

proof fn lemma_visit_reachable(h: Hierarchy, n: nat, start: int, visited: Set<int>, before: Seq<GraphContextId>)
    requires
        all_reachable(h, n, start, visited, before),
        before.len() > 0,
    ensures
        all_reachable_or_child(h, n, start, visited.insert(before.last().0 as int), before.drop_last(), before.last().0 as int),
{
    let last = before.len() - 1;
    let cur = before.last().0 as int;
    let v = visited.insert(cur);
    let p0 = before.drop_last();
    assert(before[last] == before.last());
    assert forall|x: int|
        0 <= x < n && #[trigger] in_subtree(h, x, start) && !v.contains(x) && !holds_id(p0, x) implies x
        != start && has_parent(h, x) && (!v.contains(parent(h, x)) || parent(h, x) == cur) by {
        if holds_id(before, x) {
            let i = choose|i: int| 0 <= i < before.len() && #[trigger] before[i].0 == x;
            if i < last {
                assert(p0[i].0 == x);
            }
        }
    }
}

/// Once nothing is queued, every context of the subtree is done.
proof fn lemma_reset_complete(h: Hierarchy, n: nat, start: int, visited: Set<int>, pending: Seq<GraphContextId>)
    requires
        hierarchy_ok(h, n),
        all_reachable(h, n, start, visited, pending),
        pending.len() == 0,
    ensures
        forall|x: int| 0 <= x < n && in_subtree(h, x, start) ==> visited.contains(x),
{
    assert forall|x: int| 0 <= x < n && in_subtree(h, x, start) implies visited.contains(x) by {
        assert forall|y: int|
            0 <= y < n && #[trigger] in_subtree(h, y, start) && !visited.contains(y) implies y != start
                && has_parent(h, y) && !visited.contains(parent(h, y)) by {
            assert(!holds_id(pending, y));
        }
        lemma_all_visited(h, n, visited, start, x);
    }
}

/// Asking twice for the same place gives the same context, and the second request adds no
/// context and changes no link, whatever graphs are asked for.
pub proof fn lemma_sub_context_stable<S, D, U, R>(
    a0: ArenaView<S, D, U, R>,
    a1: ArenaView<S, D, U, R>,
    a2: ArenaView<S, D, U, R>,
    sub: SubContextId,
    g1: GraphId,
    g2: GraphId,
    id1: GraphContextId,
    id2: GraphContextId,
)
    requires
        a0.sub_context_step(sub, g1, id1, a1),
        a1.sub_context_step(sub, g2, id2, a2),
    ensures
        id2 == id1,
        a2.hierarchy == a1.hierarchy,
        a2.contexts.len() == a1.contexts.len(),
{
    assert(a1.hierarchy.contains_key(sub));
}

/// The context that is handed back exists, hangs at the place asked for, and evaluates the
/// graph asked for.
pub proof fn lemma_sub_context_graph<S, D, U, R>(
    a0: ArenaView<S, D, U, R>,
    a1: ArenaView<S, D, U, R>,
    sub: SubContextId,
    g: GraphId,
    id: GraphContextId,
)
    requires
        hierarchy_ok(a0.hierarchy, a0.contexts.len()),
        sub.ctx_id.0 < a0.contexts.len(),
        a0.sub_context_step(sub, g, id, a1),
    ensures
        id.0 < a1.contexts.len(),
        a1.contexts[id.0 as int].graph_id == g,
        a1.hierarchy.contains_key(sub),
        a1.hierarchy[sub] == id,
{
    if a0.hierarchy.contains_key(sub) {
        assert(id.0 < a0.contexts.len());
    }
    assert(in_subtree(a1.hierarchy, id.0 as int, id.0 as int));
}

/// Replacing the graph of a child context resets exactly its subtree: a context below the
/// one handed back is emptied and keeps its graph, the one handed back is emptied for the
/// new graph, and every other context is left as it was.
pub proof fn lemma_sub_context_resets_only_subtree<S, D, U, R>(
    a0: ArenaView<S, D, U, R>,
    a1: ArenaView<S, D, U, R>,
    sub: SubContextId,
    g: GraphId,
    id: GraphContextId,
    x: int,
)
    requires
        a0.sub_context_step(sub, g, id, a1),
        0 <= x < a0.contexts.len(),
    ensures
        !in_subtree(a1.hierarchy, x, id.0 as int) ==> a1.contexts[x] == a0.contexts[x],
        in_subtree(a1.hierarchy, x, id.0 as int) && a0.hierarchy.contains_key(sub)
            && a0.contexts[id.0 as int].graph_id != g ==> a1.contexts[x] == GraphStateView::<
            S,
            D,
            U,
            R,
        >::fresh(if x == id.0 {
            g
        } else {
            a0.contexts[x].graph_id
        }),
        in_subtree(a1.hierarchy, x, id.0 as int) && (!a0.hierarchy.contains_key(sub)
            || a0.contexts[id.0 as int].graph_id == g) ==> a1.contexts[x] == a0.contexts[x],
{
    if !a0.hierarchy.contains_key(sub) {
        assert(a0.contexts.push(GraphStateView::fresh(g))[x] == a0.contexts[x]);
    }
}

/// The top-level context is never reset by a request for a sub-context.
pub proof fn lemma_sub_context_keeps_top_level<S, D, U, R>(
    a0: ArenaView<S, D, U, R>,
    a1: ArenaView<S, D, U, R>,
    sub: SubContextId,
    g: GraphId,
    id: GraphContextId,
)
    requires
        hierarchy_ok(a0.hierarchy, a0.contexts.len()),
        a0.top_level_context.0 == 0,
        a0.contexts.len() >= 1,
        sub.ctx_id.0 < a0.contexts.len(),
        a0.sub_context_step(sub, g, id, a1),
    ensures
        a1.top_level_context == a0.top_level_context,
        a1.contexts[0] == a0.contexts[0],
{
    if a0.hierarchy.contains_key(sub) {
        assert(sub.ctx_id.0 < a0.hierarchy[sub].0);
    } else {
        assert(a0.contexts.push(GraphStateView::fresh(g))[0] == a0.contexts[0]);
    }
    if in_subtree(a1.hierarchy, 0, id.0 as int) {
        lemma_subtree_not_before(a1.hierarchy, 0, id.0 as int);
    }
}

/// What queueing the children of `cur` works with: the links, the number of contexts, the
/// root of the subtree, the done set before and after `cur`, the queue left after taking
/// `cur`, and the links listed one by one.
struct QueueState {
    h: Hierarchy,
    n: nat,
    start: int,
    done_before: Set<int>,
    visited: Set<int>,
    cur: int,
    p0: Seq<GraphContextId>,
    entries: Seq<(SubContextId, GraphContextId)>,
}

impl QueueState {
    /// After looking at the first `j` links, `pending` is `p0` followed by the children of
    /// `cur` among them (`src` gives where each was found), and the queue is consistent.
    spec fn holds(self, pending: Seq<GraphContextId>, src: Seq<int>, j: int) -> bool {
        let h = self.h;
        let n = self.n;
        let start = self.start;
        let visited = self.visited;
        let cur = self.cur;
        let entries = self.entries;
        &&& hierarchy_ok(h, n)
        &&& 0 <= start < n
        &&& visited == self.done_before.insert(cur)
        &&& !self.done_before.contains(cur)
        &&& visited_ok(h, n, start, self.done_before)
        &&& visited_ok(h, n, start, visited)
        &&& forall|i: int, k: int| 0 <= i < k < entries.len() ==> entries[i].0 != entries[k].0
        &&& forall|i: int|
            0 <= i < entries.len() ==> h.contains_key(#[trigger] entries[i].0) && h[entries[i].0]
                == entries[i].1
        &&& forall|k: SubContextId|
            #[trigger] h.contains_key(k) ==> exists|i: int| 0 <= i < entries.len() && entries[i].0 == k
        &&& 0 <= j <= entries.len()
        &&& pending.len() == self.p0.len() + src.len()
        &&& pending.subrange(0, self.p0.len() as int) == self.p0
        &&& pending_ok(h, n, start, visited, self.p0)
        &&& pending_ok(h, n, start, self.done_before, self.p0)
        &&& forall|t: int|
            #![trigger src[t]]
            0 <= t < src.len() ==> 0 <= src[t] < j && entries[src[t]].0.ctx_id.0 == cur
                && entries[src[t]].1 == pending[self.p0.len() + t]
        &&& pending_ok(h, n, start, visited, pending)
        &&& forall|x: int|
            0 <= x < n && #[trigger] in_subtree(h, x, start) && !visited.contains(x) && !holds_id(
                pending,
                x,
            ) ==> x != start && has_parent(h, x) && (!visited.contains(parent(h, x)) || (parent(
                h,
                x,
            ) == cur && forall|jj: int| 0 <= jj < j ==> #[trigger] entries[jj].1.0 != x))
    }

    /// Link `j` is one to a child of `cur`: that child is in the subtree, not done, and not
    /// queued yet.
    proof fn lemma_child_fresh(self, pb: Seq<GraphContextId>, src: Seq<int>, j: int)
        requires
            self.holds(pb, src, j),
            j < self.entries.len(),
            self.entries[j].0.ctx_id.0 == self.cur,
        ensures
            ({
                let ch = self.entries[j].1.0 as int;
                &&& 0 <= ch < self.n
                &&& in_subtree(self.h, ch, self.start)
                &&& ch != self.start
                &&& has_parent(self.h, ch)
                &&& parent(self.h, ch) == self.cur
                &&& !self.visited.contains(ch)
                &&& forall|i: int| 0 <= i < pb.len() ==> pb[i] != self.entries[j].1
            }),
    {
        let h = self.h;
        let n = self.n;
        let entries = self.entries;
        let p0 = self.p0;
        let k = entries[j].0;
        let child = entries[j].1;
        let ch = child.0 as int;
        assert(self.visited.contains(self.cur));
        assert(h.contains_key(k));
        lemma_parent_of_child(h, n, k);
        lemma_not_parent_of_start(h, n, self.start, self.cur, k);
        assert(in_subtree(h, ch, self.start));
        assert(!self.done_before.contains(ch));
        assert forall|i: int| 0 <= i < pb.len() implies pb[i] != child by {
            if i < p0.len() {
                assert(pb[i] == pb.subrange(0, p0.len() as int)[i]);
                assert(pb[i] == p0[i]);
            } else {
                let jj = src[i - p0.len()];
                assert(entries[jj].1 == pb[i]);
                if entries[jj].1 == child {
                    assert(h[entries[jj].0] == h[k]);
                }
            }
        }
    }

    /// Queueing link `j`, whose child hangs in `cur`.
    #[verifier::rlimit(50)]
    proof fn lemma_push_child(self, pb: Seq<GraphContextId>, src: Seq<int>, j: int)
        requires
            self.holds(pb, src, j),
            j < self.entries.len(),
            self.entries[j].0.ctx_id.0 == self.cur,
        ensures
            self.holds(pb.push(self.entries[j].1), src.push(j), j + 1),
    {
        let h = self.h;
        let n = self.n;
        let start = self.start;
        let visited = self.visited;
        let cur = self.cur;
        let entries = self.entries;
        let p0 = self.p0;
        let child = entries[j].1;
        let ch = child.0 as int;
        let pending = pb.push(child);
        let src2 = src.push(j);
        self.lemma_child_fresh(pb, src, j);
        assert(pending.subrange(0, p0.len() as int) =~= pb.subrange(0, p0.len() as int));
        assert(pending[pb.len() as int] == child);
        assert forall|t: int|
            #![trigger src2[t]]
            0 <= t < src2.len() implies 0 <= src2[t] < j + 1 && entries[src2[t]].0.ctx_id.0 == cur
                && entries[src2[t]].1 == pending[p0.len() + t] by {
            if t < src.len() {
                assert(src2[t] == src[t]);
                assert(pending[p0.len() + t] == pb[p0.len() + t]);
            }
        }
        assert(pending_ok(h, n, start, visited, pending)) by {
            assert forall|i: int, i2: int| 0 <= i < i2 < pending.len() implies pending[i]
                != pending[i2] by {
                assert(pending[i] == pb[i] || i == pb.len());
            }
            assert forall|i: int|
                #![trigger pending[i]]
                0 <= i < pending.len() implies {
                let p = pending[i].0 as int;
                &&& 0 <= p < n
                &&& in_subtree(h, p, start)
                &&& !visited.contains(p)
                &&& (p == start || (has_parent(h, p) && visited.contains(parent(h, p))))
            } by {
                if i < pb.len() {
                    assert(pending[i] == pb[i]);
                }
            }
        }
        assert forall|x: int|
            0 <= x < n && #[trigger] in_subtree(h, x, start) && !visited.contains(x) && !holds_id(
                pending,
                x,
            ) implies x != start && has_parent(h, x) && (!visited.contains(parent(h, x)) || (parent(
            h,
            x,
        ) == cur && forall|jj: int| 0 <= jj < j + 1 ==> #[trigger] entries[jj].1.0 != x)) by {
            if holds_id(pb, x) {
                let i = choose|i: int| 0 <= i < pb.len() && #[trigger] pb[i].0 == x;
                assert(pending[i].0 == x);
            }
            if x == ch {
                assert(pending[pb.len() as int].0 == x);
            }
        }
    }

    /// Passing over link `j`, whose child hangs elsewhere.
    proof fn lemma_skip(self, pb: Seq<GraphContextId>, src: Seq<int>, j: int)
        requires
            self.holds(pb, src, j),
            j < self.entries.len(),
            self.entries[j].0.ctx_id.0 != self.cur,
        ensures
            self.holds(pb, src, j + 1),
    {
        let h = self.h;
        let n = self.n;
        let start = self.start;
        let visited = self.visited;
        let cur = self.cur;
        let entries = self.entries;
        assert forall|x: int|
            0 <= x < n && #[trigger] in_subtree(h, x, start) && !visited.contains(x) && !holds_id(
                pb,
                x,
            ) implies x != start && has_parent(h, x) && (!visited.contains(parent(h, x)) || (parent(
            h,
            x,
        ) == cur && forall|jj: int| 0 <= jj < j + 1 ==> #[trigger] entries[jj].1.0 != x)) by {
            if has_parent(h, x) && parent(h, x) == cur && entries[j].1.0 == x {
                lemma_parent_of_child(h, n, entries[j].0);
            }
        }
    }

    /// Once every link was looked at, every child of `cur` is queued.
    proof fn lemma_done(self, pending: Seq<GraphContextId>, src: Seq<int>)
        requires
            self.holds(pending, src, self.entries.len() as int),
        ensures
            pending_ok(self.h, self.n, self.start, self.visited, pending),
            all_reachable(self.h, self.n, self.start, self.visited, pending),
    {
        let h = self.h;
        let entries = self.entries;
        assert forall|x: int|
            0 <= x < self.n && #[trigger] in_subtree(h, x, self.start) && !self.visited.contains(x)
                && !holds_id(pending, x) implies x != self.start && has_parent(h, x)
            && !self.visited.contains(parent(h, x)) by {
            if self.visited.contains(parent(h, x)) {
                let k = choose|k: SubContextId| #[trigger] h.contains_key(k) && h[k].0 == x;
                let i = choose|i: int| 0 <= i < entries.len() && entries[i].0 == k;
                assert(entries[i].1.0 == x);
            }
        }
    }
}

proof fn lemma_all_visited(h: Hierarchy, n: nat, visited: Set<int>, start: int, x: int)
    requires
        hierarchy_ok(h, n),
        0 <= x < n,
        in_subtree(h, x, start),
        forall|y: int|
            0 <= y < n && #[trigger] in_subtree(h, y, start) && !visited.contains(y) ==> y != start
                && has_parent(h, y) && !visited.contains(parent(h, y)),
    ensures
        visited.contains(x),
    decreases x,
{
    if !visited.contains(x) {
        assert(x != start && has_parent(h, x) && !visited.contains(parent(h, x)));
        let p = parent(h, x);
        let k = choose|k: SubContextId| #[trigger] h.contains_key(k) && h[k].0 == x;
        lemma_parent_of_child(h, n, k);
        assert(0 <= p < x);
        assert(in_subtree(h, p, start));
        lemma_all_visited(h, n, visited, start, p);
    }
}

impl<S, D, U, R> GraphContextArena<S, D, U, R> {
    pub closed spec fn wf(&self) -> bool {
        &&& self.contexts@.len() >= 1
        &&& self.top_level_context.0 == 0
        &&& forall|i: int| 0 <= i < self.contexts@.len() ==> #[trigger] self.contexts@[i].wf()
        &&& hierarchy_ok(hierarchy_entries(self.hierarchy), self.contexts@.len())
    }

    /// In a well-formed arena, which every public method keeps, the top-level context is the
    /// first one and exists, so `get_toplevel` and `get_toplevel_mut` always find it.
    pub proof fn lemma_top_level_exists(&self)
        requires
            self.wf(),
        ensures
            self@.top_level_context == GraphContextId(0),
            self@.contexts.len() >= 1,
            self@.top_level_context.0 < self@.contexts.len(),
    {
    }

    /// An arena with one context, the top-level one, for `graph_id`, at frame 0.
    pub fn new(graph_id: GraphId) -> (a: Self)
        ensures
            a.wf(),
            a@ == (ArenaView {
                contexts: seq![GraphStateView::<S, D, U, R>::fresh(graph_id)],
                hierarchy: Map::empty(),
                top_level_context: GraphContextId(0),
                frame_index: 0,
            }),
    {
        let mut contexts = Vec::new();
        contexts.push(GraphState::new(graph_id));
        let a = GraphContextArena {
            contexts,
            hierarchy: hierarchy_new(),
            top_level_context: GraphContextId(0),
            frame_index: 0,
        };
        assert(a@.contexts =~= seq![GraphStateView::<S, D, U, R>::fresh(graph_id)]);
        assert(a@.hierarchy =~= Map::<SubContextId, GraphContextId>::empty());
        a
    }

    /// The identifiers of all contexts, in order.
    pub fn iter_context_ids(&self) -> (r: Vec<GraphContextId>)
        ensures
            r@.len() == self@.contexts.len(),
            forall|i: int| 0 <= i < r@.len() ==> #[trigger] r@[i] == GraphContextId(i as usize),
    {
        let mut r = Vec::new();
        let mut i: usize = 0;
        while i < self.contexts.len()
            invariant
                i <= self.contexts@.len(),
                r@.len() == i,
                forall|j: int| 0 <= j < i ==> #[trigger] r@[j] == GraphContextId(j as usize),
            decreases self.contexts@.len() - i,
        {
            r.push(GraphContextId(i));
            i += 1;
        }
        r
    }

    /// Adds an empty context for `graph_id` at the end and returns its identifier.
    fn new_context(&mut self, graph_id: GraphId) -> (id: GraphContextId)
        requires
            old(self).wf(),
        ensures
            final(self).wf(),
            id.0 == old(self)@.contexts.len(),
            final(self)@ == (ArenaView {
                contexts: old(self)@.contexts.push(GraphStateView::fresh(graph_id)),
                ..old(self)@
            }),
    {
        self.contexts.push(GraphState::new(graph_id));
        assert(context_views(self.contexts@) =~= context_views(old(self).contexts@).push(
            GraphStateView::fresh(graph_id),
        ));
        GraphContextId(self.contexts.len() - 1)
    }

    /// The context `id`, if it exists.
    pub fn get_context(&self, id: GraphContextId) -> (r: Option<&GraphState<S, D, U, R>>)
        requires
            self.wf(),
        ensures
            if id.0 < self@.contexts.len() {
                r matches Some(g) && g.wf() && g@ == self@.contexts[id.0 as int]
            } else {
                r is None
            },
    {
        if id.0 < self.contexts.len() {
            Some(&self.contexts[id.0])
        } else {
            None
        }
    }

    /// Ends the frame in every context and advances the frame counter, wrapping at the
    /// end of its range.
    pub fn next_frame(&mut self)
        requires
            old(self).wf(),
        ensures
            final(self).wf(),
            final(self)@ == (ArenaView {
                contexts: old(self)@.contexts.map_values(
                    |g: GraphStateView<S, D, U, R>| g.after_next_frame(),
                ),
                frame_index: if old(self)@.frame_index == u64::MAX {
                    0
                } else {
                    (old(self)@.frame_index + 1) as u64
                },
                ..old(self)@
            }),
    {
        let ghost orig = context_views(self.contexts@);
        let mut i: usize = 0;
        while i < self.contexts.len()
            invariant
                self.wf(),
                self.hierarchy == old(self).hierarchy,
                self.top_level_context == old(self).top_level_context,
                self.frame_index == old(self).frame_index,
                self.contexts@.len() == orig.len(),
                i <= orig.len(),
                forall|j: int|
                    0 <= j < orig.len() ==> #[trigger] self.contexts@[j]@ == (if j < i {
                        orig[j].after_next_frame()
                    } else {
                        orig[j]
                    }),
            decreases orig.len() - i,
        {
            let c = &mut self.contexts[i];
            c.next_frame();
            i += 1;
        }
        self.frame_index = self.frame_index.wrapping_add(1);
        assert(context_views(self.contexts@) =~= orig.map_values(
            |g: GraphStateView<S, D, U, R>| g.after_next_frame(),
        ));
    }

    /// The frame counter.
    pub fn frame_index(&self) -> (f: u64)
        ensures
            f == self@.frame_index,
    {
        self.frame_index
    }

    /// The context `id`, if it exists, to change it.
    pub fn get_context_mut(&mut self, id: GraphContextId) -> (r: Option<
        &mut GraphState<S, D, U, R>,
    >)
        requires
            old(self).wf(),
        ensures
            if id.0 < old(self)@.contexts.len() {
                r matches Some(g) && g.wf() && g@ == old(self)@.contexts[id.0 as int] && (final(g).wf() ==> final(self).wf()) && final(self)@ == (ArenaView {
                    contexts: old(self)@.contexts.update(id.0 as int, final(g)@),
                    ..old(self)@
                })
            } else {
                r is None && *final(self) == *old(self)
            },
    {
        if id.0 < self.contexts.len() {
            let ghost before = self.contexts@;
            proof {
                assert forall|x: GraphState<S, D, U, R>| #[trigger] context_views(
                    before.update(id.0 as int, x),
                ) == context_views(before).update(id.0 as int, x@) by {
                    assert(context_views(before.update(id.0 as int, x)) =~= context_views(
                        before,
                    ).update(id.0 as int, x@));
                }
            }
            Some(&mut self.contexts[id.0])
        } else {
            None
        }
    }

    /// The top-level context.
    pub fn get_toplevel(&self) -> (g: &GraphState<S, D, U, R>)
        requires
            self.wf(),
        ensures
            g.wf(),
            g@ == self@.contexts[self@.top_level_context.0 as int],
    {
        self.get_context(self.get_toplevel_id()).unwrap()
    }

    /// The top-level context, to change it.
    pub fn get_toplevel_mut(&mut self) -> (g: &mut GraphState<S, D, U, R>)
        requires
            old(self).wf(),
        ensures
            g.wf(),
            g@ == old(self)@.contexts[old(self)@.top_level_context.0 as int],
            final(g).wf() ==> final(self).wf(),
            final(self)@ == (ArenaView {
                contexts: old(self)@.contexts.update(
                    old(self)@.top_level_context.0 as int,
                    final(g)@,
                ),
                ..old(self)@
            }),
    {
        let id = self.get_toplevel_id();
        self.get_context_mut(id).unwrap()
    }

    /// The identifier of the top-level context.
    pub fn get_toplevel_id(&self) -> (id: GraphContextId)
        ensures
            id == self@.top_level_context,
    {
        self.top_level_context
    }

    /// Whether the context `id` exists.
    pub fn context_exists(&self, id: GraphContextId) -> (b: bool)
        ensures
            b == (id.0 < self@.contexts.len()),
    {
        id.0 < self.contexts.len()
    }

    /// The context hanging at `sub`, if one was made there.
    pub fn get_sub_context(&self, sub: &SubContextId) -> (r: Option<GraphContextId>)
        ensures
            r == (if self@.hierarchy.contains_key(*sub) {
                Some(self@.hierarchy[*sub])
            } else {
                None
            }),
    {
        hierarchy_get(&self.hierarchy, sub)
    }

    /// Queues every child of `current`, a context that was just marked done.
    fn queue_children(
        &self,
        current: GraphContextId,
        pending: &mut Vec<GraphContextId>,
        Ghost(start): Ghost<int>,
        Ghost(done_before): Ghost<Set<int>>,
        Ghost(visited): Ghost<Set<int>>,
    )
        requires
            self.wf(),
            0 <= start < self@.contexts.len(),
            visited == done_before.insert(current.0 as int),
            !done_before.contains(current.0 as int),
            visited_ok(self@.hierarchy, self@.contexts.len(), start, done_before),
            visited_ok(self@.hierarchy, self@.contexts.len(), start, visited),
            pending_ok(self@.hierarchy, self@.contexts.len(), start, visited, old(pending)@),
            pending_ok(self@.hierarchy, self@.contexts.len(), start, done_before, old(pending)@),
            all_reachable_or_child(
                self@.hierarchy,
                self@.contexts.len(),
                start,
                visited,
                old(pending)@,
                current.0 as int,
            ),
        ensures
            pending_ok(self@.hierarchy, self@.contexts.len(), start, visited, final(pending)@),
            all_reachable(self@.hierarchy, self@.contexts.len(), start, visited, final(pending)@),
    {
        let ghost h = self@.hierarchy;
        let ghost n = self@.contexts.len();
        let ghost cur = current.0 as int;
        let ghost p0 = pending@;
        let ghost mut src: Seq<int> = Seq::empty();
        let entries = hierarchy_list(&self.hierarchy);
        proof {
            let q = QueueState { h, n, start, done_before, visited, cur, p0, entries: entries@ };
            assert(pending@.subrange(0, p0.len() as int) =~= p0);
            assert(q.holds(pending@, src, 0));
        }
        let mut j: usize = 0;
        while j < entries.len()
            invariant
                h == self@.hierarchy,
                n == self@.contexts.len(),
                cur == current.0 as int,
                j <= entries@.len(),
                (QueueState { h, n, start, done_before, visited, cur, p0, entries: entries@ }).holds(
                    pending@,
                    src,
                    j as int,
                ),
            decreases entries@.len() - j,
        {
            let ghost q = QueueState { h, n, start, done_before, visited, cur, p0, entries: entries@ };
            let ghost pb = pending@;
            let entry = entries[j];
            if entry.0.ctx_id.0 == current.0 {
                proof {
                    q.lemma_push_child(pb, src, j as int);
                }
                pending.push(entry.1);
                proof {
                    src = src.push(j as int);
                }
            } else {
                proof {
                    q.lemma_skip(pb, src, j as int);
                }
            }
            j += 1;
        }
        proof {
            let q = QueueState { h, n, start, done_before, visited, cur, p0, entries: entries@ };
            q.lemma_done(pending@, src);
        }
    }

    /// Replaces every context of the subtree below `start` by an empty one: `start` for
    /// `graph_id`, every other for the graph it already evaluated.
    #[verifier::rlimit(60)]
    fn reset_subtree(&mut self, start: usize, graph_id: GraphId)
        requires
            old(self).wf(),
            start < old(self)@.contexts.len(),
        ensures
            final(self).wf(),
            final(self)@ == (ArenaView {
                contexts: ArenaView::reset_below(
                    old(self)@.contexts,
                    old(self)@.hierarchy,
                    start as int,
                    graph_id,
                ),
                ..old(self)@
            }),
    {
        let ghost h = hierarchy_entries(self.hierarchy);
        let ghost c0 = context_views(self.contexts@);
        let ghost n = c0.len();
        let ghost st = start as int;
        let ghost target = ArenaView::reset_below(c0, h, st, graph_id);
        let ghost mut visited: Set<int> = Set::empty();
        let mut pending: Vec<GraphContextId> = Vec::new();
        pending.push(GraphContextId(start));
        proof {
            assert(in_subtree(h, st, st));
            assert(pending@[0].0 == st);
            assert forall|x: int|
                0 <= x < n && #[trigger] in_subtree(h, x, st) && !visited.contains(x)
                    && !holds_id(pending@, x) implies x != start && has_parent(h, x)
                && !visited.contains(parent(h, x)) by {
                if x == start {
                    assert(pending@[0].0 == x);
                }
            }
        }
        while pending.len() > 0
            invariant
                self.wf(),
                self.hierarchy == old(self).hierarchy,
                self.top_level_context == old(self).top_level_context,
                self.frame_index == old(self).frame_index,
                h == hierarchy_entries(self.hierarchy),
                c0 == context_views(old(self).contexts@),
                n == c0.len(),
                target == ArenaView::reset_below(c0, h, st, graph_id),
                self.contexts@.len() == n,
                st == start,
                start < n,
                visited_ok(h, n, st, visited),
                visited.len() <= n,
                pending_ok(h, n, st, visited, pending@),
                forall|x: int|
                    0 <= x < n ==> #[trigger] self.contexts@[x]@ == (if visited.contains(x) {
                        target[x]
                    } else {
                        c0[x]
                    }),
                all_reachable(h, n, st, visited, pending@),
            decreases n - visited.len(),
        {
            let ghost before = pending@;
            proof {
                lemma_visit_step(h, n, st, visited, before);
                lemma_visit_pending(h, n, st, visited, before);
            }
            let current = pending.pop().unwrap();
            proof {
                assert(before.last() == current);
                assert(pending@ =~= before.drop_last());
            }
            let g = if current.0 == start {
                graph_id
            } else {
                self.contexts[current.0].get_graph_id()
            };
            let ghost done_before = visited;
            let slot = &mut self.contexts[current.0];
            *slot = GraphState::new(g);
            proof {
                visited = visited.insert(current.0 as int);
                assert forall|x: int| 0 <= x < n implies #[trigger] self.contexts@[x]@ == (
                if visited.contains(x) {
                    target[x]
                } else {
                    c0[x]
                }) by {}
            }
            self.queue_children(current, &mut pending, Ghost(st), Ghost(done_before), Ghost(visited));
        }
        proof {
            lemma_reset_complete(h, n, st, visited, pending@);
            assert(context_views(self.contexts@) =~= target);
        }
    }

    /// The context hanging at `subctx_id`, made first (empty, for `subgraph_id`) if there
    /// is none. If the context found evaluates another graph than `subgraph_id`, it and
    /// every context hanging below it are replaced by empty ones: it for `subgraph_id`, the
    /// others for the graphs they evaluated. The place `subctx_id` hangs in must exist.
    pub fn get_sub_context_or_insert_default(
        &mut self,
        subctx_id: SubContextId,
        subgraph_id: GraphId,
    ) -> (id: GraphContextId)
        requires
            old(self).wf(),
            subctx_id.ctx_id.0 < old(self)@.contexts.len(),
        ensures
            final(self).wf(),
            old(self)@.sub_context_step(subctx_id, subgraph_id, id, final(self)@),
    {
        let context_id = match hierarchy_get(&self.hierarchy, &subctx_id) {
            Some(existing) => {
                proof {
                    assert(hierarchy_entries(self.hierarchy).contains_key(subctx_id));
                }
                existing
            },
            None => {
                let ghost n0 = self.contexts@.len();
                let ghost h = hierarchy_entries(self.hierarchy);
                assert(hierarchy_ok(h, n0));
                let child = self.new_context(subgraph_id);
                assert(self.contexts@.len() == n0 + 1) by {
                    assert(context_views(self.contexts@).len() == self.contexts@.len());
                }
                hierarchy_insert(&mut self.hierarchy, subctx_id, child);
                proof {
                    let h2 = h.insert(subctx_id, child);
                    let n = self.contexts@.len();
                    assert(hierarchy_entries(self.hierarchy) == h2);
                    assert forall|k: SubContextId| #[trigger] h2.contains_key(k) implies k.ctx_id.0
                        < h2[k].0 < n by {
                        if k != subctx_id {
                            assert(h.contains_key(k));
                        } else {
                            assert(child.0 == n0);
                        }
                    }
                    assert forall|k1: SubContextId, k2: SubContextId|
                        #[trigger] h2.contains_key(k1) && #[trigger] h2.contains_key(k2) && h2[k1]
                            == h2[k2] implies k1 == k2 by {
                        if k1 != subctx_id {
                            assert(h.contains_key(k1));
                        }
                        if k2 != subctx_id {
                            assert(h.contains_key(k2));
                        }
                    }
                }
                child
            },
        };
        proof {
            assert(context_views(self.contexts@)[context_id.0 as int] == self.contexts@[context_id.0 as int]@);
        }
        if self.contexts[context_id.0].get_graph_id() != subgraph_id {
            self.reset_subtree(context_id.0, subgraph_id);
        }
        context_id
    }
}

/// A graph state that is a clone of a well-formed one is well formed and holds clones.
proof fn lemma_graph_state_cloned<S: Clone, D: Clone, U: Clone, R: Clone>(
    a: GraphState<S, D, U, R>,
    b: GraphState<S, D, U, R>,
)
    requires
        cloned(a, b),
        a.wf(),
    ensures
        b.wf(),
        b@.is_clone_of(a@),
{
}

impl<S: Clone, D: Clone, U: Clone, R: Clone> Clone for GraphContextArena<S, D, U, R> {
    /// A snapshot: clones of every context, the same links and counters.
    fn clone(&self) -> (r: Self)
        ensures
            self.wf() ==> r.wf() && r@.is_clone_of(self@),
    {
        let mut contexts: Vec<GraphState<S, D, U, R>> = Vec::new();
        let mut i: usize = 0;
        while i < self.contexts.len()
            invariant
                i <= self.contexts@.len(),
                contexts@.len() == i,
                forall|j: int|
                    0 <= j < i ==> cloned(self.contexts@[j], #[trigger] contexts@[j]),
            decreases self.contexts@.len() - i,
        {
            contexts.push(self.contexts[i].clone());
            i += 1;
        }
        let r = GraphContextArena {
            contexts,
            hierarchy: hierarchy_clone(&self.hierarchy),
            top_level_context: self.top_level_context,
            frame_index: self.frame_index,
        };
        proof {
            if self.wf() {
                assert forall|j: int| 0 <= j < r.contexts@.len() implies #[trigger] r.contexts@[j].wf()
                    && r.contexts@[j]@.is_clone_of(self.contexts@[j]@) by {
                    lemma_graph_state_cloned(self.contexts@[j], r.contexts@[j]);
                }
                assert forall|j: int| 0 <= j < self@.contexts.len() implies #[trigger] r@.contexts[j].is_clone_of(
                    self@.contexts[j],
                ) by {
                    assert(r@.contexts[j] == r.contexts@[j]@);
                    assert(self@.contexts[j] == self.contexts@[j]@);
                    lemma_graph_state_cloned(self.contexts@[j], r.contexts@[j]);
                }
            }
        }
        r
    }
}

/// A context is in the subtree below `root` exactly when it is `root` or hangs, through its
/// parent, in a context of that subtree made before it.
pub proof fn lemma_in_subtree_by_parent(h: Hierarchy, x: int, root: int)
    ensures
        in_subtree(h, x, root) ==> x == root || (has_parent(h, x) && 0 <= parent(h, x) < x
            && in_subtree(h, parent(h, x), root)),
        x == root ==> in_subtree(h, x, root),
        has_parent(h, x) && 0 <= parent(h, x) < x && in_subtree(h, parent(h, x), root) ==> in_subtree(
            h,
            x,
            root,
        ),
        !has_parent(h, x) && x != root ==> !in_subtree(h, x, root),
{
}

/// A snapshot has as many contexts, the same links and counters, and each of its contexts
/// is a clone of the original's: same graph, same nodes, same query time.
pub proof fn lemma_arena_clone_answers_alike<S: Clone, D: Clone, U: Clone, R: Clone>(
    a: ArenaView<S, D, U, R>,
    b: ArenaView<S, D, U, R>,
    i: int,
)
    requires
        b.is_clone_of(a),
        0 <= i < a.contexts.len(),
    ensures
        b.contexts.len() == a.contexts.len(),
        b.hierarchy == a.hierarchy,
        b.top_level_context == a.top_level_context,
        b.frame_index == a.frame_index,
        b.contexts[i].graph_id == a.contexts[i].graph_id,
        b.contexts[i].node_states.dom() == a.contexts[i].node_states.dom(),
        b.contexts[i].node_caches.dom() == a.contexts[i].node_caches.dom(),
        b.contexts[i].query_output_time.is_clone_of(a.contexts[i].query_output_time),
{
    assert(b.contexts[i].is_clone_of(a.contexts[i]));
}

} // verus!

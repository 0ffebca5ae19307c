//! The execution planner: compiles a workflow graph plus its trigger task into
//! an ordered sequence of task-creation records.
//!
//! The graph is traversed breadth-first from the trigger node, visiting each
//! node's successors in edge-declaration order. A visited set keyed by node
//! guarantees that a node reachable over several paths (fan-in) is emitted at
//! most once and that the traversal terminates even on a cyclic graph. The
//! emission order is the contract: it equals the eventual sequential execution
//! order, and the k-th emitted record carries `processing_order` k + 1.
use vstd::prelude::*;
use vstd::string::StringExecFns;
use vstd::set_lib::{set_int_range, lemma_int_range, lemma_len_subset};
use crate::types::{
    ActionNode, CreateTaskInput, Edge, FlowVersion, NodeKind, Task, TaskConfig, TaskStatus,
    Workflow, clone_opt_string, view_opt,
};

verus! {

/// Why planning failed: the flow definition did not deserialize into a
/// workflow, or the workflow has no trigger node.
#[derive(Clone, Copy, PartialEq, Eq, Structural, Debug)]
pub enum PlanError {
    MalformedWorkflow,
    TriggerNotFound,
}

/// A sequence of action indices viewed as mathematical integers.
pub open spec fn view_usizes(s: Seq<usize>) -> Seq<int> {
    s.map_values(|x: usize| x as int)
}

/// First index at or after `i` whose action is the trigger node.
pub open spec fn trigger_from(actions: Seq<ActionNode>, i: int) -> Option<int>
    decreases actions.len() - i,
{
    if i < 0 || i >= actions.len() {
        None
    } else if actions[i].kind is Trigger {
        Some(i)
    } else {
        trigger_from(actions, i + 1)
    }
}

/// Index of the workflow's trigger node: the first action typed `Trigger`.
pub open spec fn spec_trigger_index(actions: Seq<ActionNode>) -> Option<int> {
    trigger_from(actions, 0)
}

/// First index at or after `i` whose action carries node id `id`.
pub open spec fn resolve_from(actions: Seq<ActionNode>, id: Seq<char>, i: int) -> Option<int>
    decreases actions.len() - i,
{
    if i < 0 || i >= actions.len() {
        None
    } else if actions[i].node_id@ == id {
        Some(i)
    } else {
        resolve_from(actions, id, i + 1)
    }
}

/// Index of the action a node id names: the first action carrying that id.
pub open spec fn spec_resolve(actions: Seq<ActionNode>, id: Seq<char>) -> Option<int> {
    resolve_from(actions, id, 0)
}

/// The direct successors of the node at index `src`, restricted to edges at or
/// after position `k`: the resolved targets of its outgoing edges, in
/// edge-declaration order. An edge whose target names no action is skipped.
pub open spec fn succ_from(actions: Seq<ActionNode>, edges: Seq<Edge>, src: int, k: int) -> Seq<
    int,
>
    decreases edges.len() - k,
{
    if k < 0 || k >= edges.len() {
        Seq::empty()
    } else {
        let rest = succ_from(actions, edges, src, k + 1);
        if 0 <= src < actions.len() && edges[k].source@ == actions[src].node_id@ {
            match spec_resolve(actions, edges[k].target@) {
                Some(t) => seq![t] + rest,
                None => rest,
            }
        } else {
            rest
        }
    }
}

/// All direct successors of the node at index `src`, in edge order.
pub open spec fn spec_succ(actions: Seq<ActionNode>, edges: Seq<Edge>, src: int) -> Seq<int> {
    succ_from(actions, edges, src, 0)
}

/// Appends to the queue every target not yet visited, marking it visited as it
/// is enqueued, so that no node enters the queue twice.
pub open spec fn enqueue_new(targets: Seq<int>, queue: Seq<int>, visited: Set<int>) -> (Seq<int>, Set<int>)
    decreases targets.len(),
{
    if targets.len() == 0 {
        (queue, visited)
    } else {
        let t = targets[0];
        if visited.contains(t) {
            enqueue_new(targets.drop_first(), queue, visited)
        } else {
            enqueue_new(targets.drop_first(), queue.push(t), visited.insert(t))
        }
    }
}

/// The action indices not yet visited.
pub open spec fn unvisited(n: int, visited: Set<int>) -> Set<int> {
    set_int_range(0, n).difference(visited)
}

proof fn lemma_enqueue_props(targets: Seq<int>, queue: Seq<int>, visited: Set<int>)
    ensures
        ({
            let (q2, v2) = enqueue_new(targets, queue, visited);
            &&& visited.subset_of(v2)
            &&& q2.len() >= queue.len()
            &&& forall|j: int| 0 <= j < queue.len() ==> q2[j] == queue[j]
            &&& forall|j: int|
                queue.len() <= j < q2.len() ==> !visited.contains(#[trigger] q2[j]) && v2.contains(
                    q2[j],
                ) && targets.contains(q2[j])
            &&& forall|j1: int, j2: int|
                #![trigger q2[j1], q2[j2]]
                queue.len() <= j1 < j2 < q2.len() ==> q2[j1] != q2[j2]
            &&& forall|x: int|
                #[trigger] v2.contains(x) ==> visited.contains(x) || targets.contains(x)
            &&& forall|x: int|
                #[trigger] v2.contains(x) && !visited.contains(x) ==> exists|j: int|
                    queue.len() <= j < q2.len() && q2[j] == x
            &&& (q2.len() == queue.len() ==> q2 == queue && v2 == visited)
            &&& (visited.finite() ==> v2.finite())
        }),
    decreases targets.len(),
{
    if targets.len() == 0 {
    } else {
        let t = targets[0];
        if visited.contains(t) {
            lemma_enqueue_props(targets.drop_first(), queue, visited);
            assert forall|x: int|
                #[trigger] enqueue_new(targets, queue, visited).1.contains(x) implies visited.contains(
                    x,
                ) || targets.contains(x) by {
                if enqueue_new(targets, queue, visited).1.contains(x) && !visited.contains(x) {
                    assert(targets.drop_first().contains(x));
                    let j = choose|j: int|
                        0 <= j < targets.drop_first().len() && targets.drop_first()[j] == x;
                    assert(targets[j + 1] == x);
                }
            }
        } else {
            lemma_enqueue_props(targets.drop_first(), queue.push(t), visited.insert(t));
            let (q2, v2) = enqueue_new(targets, queue, visited);
            assert(queue.push(t).len() == queue.len() + 1);
            assert forall|j: int|
                queue.len() <= j < q2.len() implies !visited.contains(#[trigger] q2[j])
                && v2.contains(q2[j]) && targets.contains(q2[j]) by {
                if j == queue.len() {
                    assert(q2[j] == queue.push(t)[j]);
                    assert(q2[j] == t);
                    assert(targets.contains(t)) by { assert(targets[0] == t); }
                    assert(v2.contains(t)) by {
                        assert(visited.insert(t).subset_of(v2));
                    }
                } else {
                    assert(!visited.insert(t).contains(q2[j]));
                    assert(targets.drop_first().contains(q2[j]));
                    let jj = choose|jj: int|
                        0 <= jj < targets.drop_first().len() && targets.drop_first()[jj] == q2[j];
                    assert(targets[jj + 1] == q2[j]);
                }
            }
            assert forall|j1: int, j2: int|
                #![trigger q2[j1], q2[j2]]
                queue.len() <= j1 < j2 < q2.len() implies q2[j1] != q2[j2] by {
                if j1 == queue.len() {
                    assert(q2[j1] == t);
                    assert(!visited.insert(t).contains(q2[j2]));
                }
            }
            assert forall|x: int|
                #[trigger] v2.contains(x) implies visited.contains(x) || targets.contains(x) by {
                if v2.contains(x) && !visited.contains(x) {
                    if x == t {
                        assert(targets[0] == t);
                    } else {
                        assert(!visited.insert(t).contains(x) ==> targets.drop_first().contains(x));
                        if targets.drop_first().contains(x) {
                            let j = choose|j: int|
                                0 <= j < targets.drop_first().len() && targets.drop_first()[j]
                                    == x;
                            assert(targets[j + 1] == x);
                        }
                    }
                }
            }
            assert forall|x: int|
                #[trigger] v2.contains(x) && !visited.contains(x) implies exists|j: int|
                queue.len() <= j < q2.len() && q2[j] == x by {
                if x == t {
                    assert(q2[queue.len() as int] == queue.push(t)[queue.len() as int] == t);
                } else {
                    assert(!visited.insert(t).contains(x));
                    let j = choose|j: int|
                        queue.push(t).len() <= j < q2.len() && q2[j] == x;
                    assert(queue.len() <= j < q2.len());
                }
            }
        }
    }
}

/// Elements produced by `succ_from` are valid action indices, and each is the
/// canonical index of its node id (the first action carrying that id).
proof fn lemma_succ_in_range(actions: Seq<ActionNode>, edges: Seq<Edge>, src: int, k: int)
    ensures
        forall|x: int|
            #[trigger] succ_from(actions, edges, src, k).contains(x) ==> 0 <= x < actions.len()
                && spec_resolve(actions, actions[x].node_id@) == Some(x),
    decreases edges.len() - k,
{
    if k < 0 || k >= edges.len() {
    } else {
        lemma_succ_in_range(actions, edges, src, k + 1);
        let rest = succ_from(actions, edges, src, k + 1);
        if 0 <= src < actions.len() && edges[k].source@ == actions[src].node_id@ {
            match spec_resolve(actions, edges[k].target@) {
                Some(t) => {
                    lemma_resolve_props(actions, edges[k].target@, 0);
                    assert forall|x: int|
                        #[trigger] succ_from(actions, edges, src, k).contains(x) implies 0 <= x
                        < actions.len() && spec_resolve(actions, actions[x].node_id@) == Some(
                        x,
                    ) by {
                        let cur = succ_from(actions, edges, src, k);
                        let j = choose|j: int| 0 <= j < cur.len() && cur[j] == x;
                        if j == 0 {
                            assert(x == t);
                            assert(actions[t].node_id@ == edges[k].target@);
                        } else {
                            assert(rest[j - 1] == x);
                            assert(rest.contains(x));
                        }
                    }
                },
                None => {},
            }
        }
    }
}

/// A resolved index names an action in range carrying the id it was resolved
/// from.
proof fn lemma_resolve_props(actions: Seq<ActionNode>, id: Seq<char>, i: int)
    ensures
        match resolve_from(actions, id, i) {
            Some(j) => i <= j < actions.len() && actions[j].node_id@ == id,
            None => true,
        },
    decreases actions.len() - i,
{
    if i < 0 || i >= actions.len() {
    } else if actions[i].node_id@ == id {
    } else {
        lemma_resolve_props(actions, id, i + 1);
    }
}

/// The trigger index names an action in range typed `Trigger`.
proof fn lemma_trigger_props(actions: Seq<ActionNode>, i: int)
    ensures
        match trigger_from(actions, i) {
            Some(j) => i <= j < actions.len() && actions[j].kind is Trigger,
            None => true,
        },
    decreases actions.len() - i,
{
    if i < 0 || i >= actions.len() {
    } else if actions[i].kind is Trigger {
    } else {
        lemma_trigger_props(actions, i + 1);
    }
}

/// The breadth-first emission order from a given queue and visited set: pops
/// the queue head, emits it unless it is the trigger-typed node, and enqueues
/// its not-yet-visited successors. Terminates on any graph because a node is
/// enqueued at most once.
pub open spec fn bfs_from(
    actions: Seq<ActionNode>,
    edges: Seq<Edge>,
    queue: Seq<int>,
    visited: Set<int>,
) -> Seq<int>
    decreases unvisited(actions.len() as int, visited).len(), queue.len(),
        via bfs_from_decreases
{
    if queue.len() == 0 {
        Seq::empty()
    } else {
        let cur = queue[0];
        let pair = enqueue_new(spec_succ(actions, edges, cur), queue.drop_first(), visited);
        let rest = bfs_from(actions, edges, pair.0, pair.1);
        if 0 <= cur < actions.len() && !(actions[cur].kind is Trigger) {
            seq![cur] + rest
        } else {
            rest
        }
    }
}

#[via_fn]
proof fn bfs_from_decreases(
    actions: Seq<ActionNode>,
    edges: Seq<Edge>,
    queue: Seq<int>,
    visited: Set<int>,
) {
    if queue.len() != 0 {
        let n = actions.len() as int;
        let cur = queue[0];
        let targets = spec_succ(actions, edges, cur);
        lemma_succ_in_range(actions, edges, cur, 0);
        lemma_enqueue_props(targets, queue.drop_first(), visited);
        let pair = enqueue_new(targets, queue.drop_first(), visited);
        let (q2, v2) = pair;
        lemma_int_range(0, n);
        lemma_len_subset(unvisited(n, visited), set_int_range(0, n));
        if q2.len() == queue.drop_first().len() {
            assert(unvisited(n, v2) =~= unvisited(n, visited));
        } else {
            let x = q2[queue.drop_first().len() as int];
            assert(!visited.contains(x) && v2.contains(x) && targets.contains(x));
            assert(0 <= x < n);
            assert(unvisited(n, visited).contains(x));
            assert(unvisited(n, v2).subset_of(unvisited(n, visited).remove(x))) by {
                assert forall|y: int| #[trigger] unvisited(n, v2).contains(y) implies unvisited(
                    n,
                    visited,
                ).remove(x).contains(y) by {
                    assert(!v2.contains(y));
                    assert(visited.subset_of(v2));
                }
            }
            lemma_len_subset(unvisited(n, v2), unvisited(n, visited).remove(x));
            assert(unvisited(n, visited).remove(x).len() == unvisited(n, visited).len() - 1);
        }
    }
}

/// The plan order of a workflow whose trigger sits at the given index: the
/// breadth-first order seeded with the trigger already visited, so the trigger
/// is expanded once and never emitted.
pub open spec fn spec_plan_order(actions: Seq<ActionNode>, edges: Seq<Edge>) -> Seq<int>
    recommends
        spec_trigger_index(actions) is Some,
{
    let t = spec_trigger_index(actions).unwrap();
    bfs_from(actions, edges, seq![t], Set::empty().insert(t))
}

/// Locates the workflow's trigger node: the first action typed `Trigger`.
pub fn find_trigger(actions: &Vec<ActionNode>) -> (r: Option<usize>)
    ensures
        match r {
            Some(i) => spec_trigger_index(actions@) == Some(i as int),
            None => spec_trigger_index(actions@) is None,
        },
{
    let n = actions.len();
    let mut i: usize = 0;
    while i < n
        invariant
            i <= n,
            n == actions.len(),
            spec_trigger_index(actions@) == trigger_from(actions@, i as int),
        decreases n - i,
    {
        if matches!(actions[i].kind, NodeKind::Trigger) {
            return Some(i);
        }
        assert(trigger_from(actions@, i as int) == trigger_from(actions@, i + 1));
        i = i + 1;
    }
    None
}

/// Locates the action a node id names: the first action carrying that id.
pub fn find_action(actions: &Vec<ActionNode>, id: &String) -> (r: Option<usize>)
    ensures
        match r {
            Some(i) => spec_resolve(actions@, id@) == Some(i as int),
            None => spec_resolve(actions@, id@) is None,
        },
{
    let n = actions.len();
    let mut i: usize = 0;
    while i < n
        invariant
            i <= n,
            n == actions.len(),
            spec_resolve(actions@, id@) == resolve_from(actions@, id@, i as int),
        decreases n - i,
    {
        if actions[i].node_id == *id {
            return Some(i);
        }
        assert(resolve_from(actions@, id@, i as int) == resolve_from(actions@, id@, i + 1));
        i = i + 1;
    }
    None
}

/// Builds, for every node, the list of its direct successors in edge order.
fn build_adjacency(actions: &Vec<ActionNode>, edges: &Vec<Edge>) -> (adj: Vec<Vec<usize>>)
    ensures
        adj.len() == actions.len(),
        forall|c: int|
            0 <= c < adj.len() ==> view_usizes(#[trigger] adj[c]@) == spec_succ(
                actions@,
                edges@,
                c,
            ),
{
    let n = actions.len();
    let m = edges.len();
    let mut adj: Vec<Vec<usize>> = Vec::new();
    let mut i: usize = 0;
    while i < n
        invariant
            i <= n,
            n == actions.len(),
            m == edges.len(),
            adj.len() == i,
            forall|c: int|
                0 <= c < i ==> view_usizes(#[trigger] adj[c]@) == spec_succ(actions@, edges@, c),
        decreases n - i,
    {
        let mut lst: Vec<usize> = Vec::new();
        let mut k: usize = 0;
        while k < m
            invariant
                k <= m,
                i < n,
                n == actions.len(),
                m == edges.len(),
                view_usizes(lst@) + succ_from(actions@, edges@, i as int, k as int) == spec_succ(
                    actions@,
                    edges@,
                    i as int,
                ),
            decreases m - k,
        {
            if edges[k].source == actions[i].node_id {
                match find_action(actions, &edges[k].target) {
                    Some(t) => {
                        assert(succ_from(actions@, edges@, i as int, k as int) == seq![t as int]
                            + succ_from(actions@, edges@, i as int, k as int + 1));
                        lst.push(t);
                        proof {
                            assert(view_usizes(lst@) =~= view_usizes(lst@.drop_last()).push(
                                t as int,
                            ));
                            assert(view_usizes(lst@) + succ_from(
                                actions@,
                                edges@,
                                i as int,
                                k as int + 1,
                            ) =~= spec_succ(actions@, edges@, i as int));
                        }
                    },
                    None => {
                        assert(succ_from(actions@, edges@, i as int, k as int) == succ_from(
                            actions@,
                            edges@,
                            i as int,
                            k as int + 1,
                        ));
                    },
                }
            } else {
                assert(succ_from(actions@, edges@, i as int, k as int) == succ_from(
                    actions@,
                    edges@,
                    i as int,
                    k as int + 1,
                ));
            }
            k = k + 1;
        }
        assert(view_usizes(lst@) =~= spec_succ(actions@, edges@, i as int));
        adj.push(lst);
        i = i + 1;
    }
    adj
}

/// The set of action indices an exec visited vector marks.
pub open spec fn vis_set(v: Seq<bool>) -> Set<int> {
    Set::new(|i: int| 0 <= i < v.len() && v[i])
}

/// Traverses the workflow breadth-first from the trigger node and returns the
/// indices of the visited non-trigger actions, in emission order. Fails with
/// `TriggerNotFound`, and only so, when the workflow has no trigger node.
pub fn bfs_traversal(workflow: &Workflow) -> (r: Result<Vec<usize>, PlanError>)
    ensures
        match r {
            Ok(order) => spec_trigger_index(workflow.actions@) is Some && view_usizes(order@)
                == spec_plan_order(workflow.actions@, workflow.edges@),
            Err(e) => e is TriggerNotFound && spec_trigger_index(workflow.actions@) is None,
        },
{
    let actions = &workflow.actions;
    let edges = &workflow.edges;
    let n = actions.len();
    let t = match find_trigger(actions) {
        Some(t) => t,
        None => {
            return Err(PlanError::TriggerNotFound);
        },
    };
    proof {
        lemma_trigger_props(actions@, 0);
    }
    let adj = build_adjacency(actions, edges);
    let mut vis: Vec<bool> = Vec::new();
    while vis.len() < n
        invariant
            vis.len() <= n,
            forall|j: int| 0 <= j < vis.len() ==> !(#[trigger] vis@[j]),
        decreases n - vis.len(),
    {
        vis.push(false);
    }
    proof {
        assert(vis_set(vis@) =~= Set::<int>::empty());
    }
    vis[t] = true;
    proof {
        assert(vis_set(vis@) =~= Set::<int>::empty().insert(t as int));
    }
    let mut queue: Vec<usize> = Vec::new();
    queue.push(t);
    let mut qi: usize = 0;
    let mut emitted: Vec<usize> = Vec::new();
    let ghost goal = bfs_from(actions@, edges@, seq![t as int], Set::<int>::empty().insert(t as int));
    proof {
        assert(view_usizes(queue@).skip(0) =~= seq![t as int]);
    }
    while qi < queue.len()
        invariant
            qi <= queue.len(),
            n == actions.len(),
            vis.len() == n,
            adj.len() == n,
            forall|c: int|
                0 <= c < adj.len() ==> view_usizes(#[trigger] adj[c]@) == spec_succ(
                    actions@,
                    edges@,
                    c,
                ),
            forall|j: int| 0 <= j < queue.len() ==> (#[trigger] queue@[j]) < n,
            view_usizes(emitted@) + bfs_from(
                actions@,
                edges@,
                view_usizes(queue@).skip(qi as int),
                vis_set(vis@),
            ) == goal,
        decreases unvisited(n as int, vis_set(vis@)).len(), queue.len() - qi,
    {
        let ghost qm = view_usizes(queue@).skip(qi as int);
        let ghost vs = vis_set(vis@);
        let cur = queue[qi];
        assert(qm[0] == cur as int);
        qi = qi + 1;
        if !matches!(actions[cur].kind, NodeKind::Trigger) {
            emitted.push(cur);
        }
        let ghost targets = spec_succ(actions@, edges@, cur as int);
        let ghost qbase = qm.drop_first();
        proof {
            assert(qbase =~= view_usizes(queue@).skip(qi as int));
            assert(targets.skip(0) =~= targets);
        }
        let mut j: usize = 0;
        let na = adj[cur].len();
        while j < na
            invariant
                j <= na,
                cur < n,
                n == actions.len(),
                vis.len() == n,
                adj.len() == n,
                na == adj[cur as int]@.len(),
                qi <= queue.len(),
                view_usizes(adj[cur as int]@) == targets,
                targets == spec_succ(actions@, edges@, cur as int),
                forall|jj: int| 0 <= jj < queue.len() ==> (#[trigger] queue@[jj]) < n,
                enqueue_new(
                    targets.skip(j as int),
                    view_usizes(queue@).skip(qi as int),
                    vis_set(vis@),
                ) == enqueue_new(targets, qbase, vs),
            decreases na - j,
        {
            let tt = adj[cur][j];
            assert(targets.skip(j as int)[0] == tt as int);
            assert(0 <= tt < n) by {
                lemma_succ_in_range(actions@, edges@, cur as int, 0);
                assert(targets.len() == na);
                assert(0 <= j < targets.len());
                assert(targets[j as int] == tt as int);
                assert(targets == succ_from(actions@, edges@, cur as int, 0));
                assert(succ_from(actions@, edges@, cur as int, 0).contains(tt as int));
            }
            let ghost qview = view_usizes(queue@).skip(qi as int);
            let ghost vview = vis_set(vis@);
            if !vis[tt] {
                vis[tt] = true;
                queue.push(tt);
                proof {
                    assert(vis_set(vis@) =~= vview.insert(tt as int));
                    assert(view_usizes(queue@).skip(qi as int) =~= qview.push(tt as int));
                    assert(targets.skip(j as int).drop_first() =~= targets.skip(j as int + 1));
                }
            } else {
                proof {
                    assert(vview.contains(tt as int));
                    assert(targets.skip(j as int).drop_first() =~= targets.skip(j as int + 1));
                }
            }
            j = j + 1;
        }
        proof {
            assert(targets.skip(na as int) =~= Seq::<int>::empty());
            let pair = enqueue_new(targets, qbase, vs);
            assert(pair.0 == view_usizes(queue@).skip(qi as int) && pair.1 == vis_set(vis@));
            assert(bfs_from(actions@, edges@, qm, vs) == if !(actions@[cur as int].kind
                is Trigger) {
                seq![cur as int] + bfs_from(actions@, edges@, pair.0, pair.1)
            } else {
                bfs_from(actions@, edges@, pair.0, pair.1)
            });
            if !(actions@[cur as int].kind is Trigger) {
                assert(view_usizes(emitted@) =~= view_usizes(emitted@.drop_last()).push(
                    cur as int,
                ));
                assert(view_usizes(emitted@) + bfs_from(
                    actions@,
                    edges@,
                    view_usizes(queue@).skip(qi as int),
                    vis_set(vis@),
                ) =~= goal);
            }
            // the loop measure shrinks: either a node was newly visited, or the
            // queue only lost its head
            lemma_enqueue_props(targets, qbase, vs);
            lemma_int_range(0, n as int);
            lemma_len_subset(unvisited(n as int, vs), set_int_range(0, n as int));
            if pair.0.len() == qbase.len() {
                assert(unvisited(n as int, vis_set(vis@)) =~= unvisited(n as int, vs));
                assert(queue@.len() - qi == qm.len() - 1);
            } else {
                let x = pair.0[qbase.len() as int];
                assert(!vs.contains(x) && pair.1.contains(x) && targets.contains(x));
                lemma_succ_in_range(actions@, edges@, cur as int, 0);
                assert(0 <= x < n);
                assert(unvisited(n as int, vs).contains(x));
                assert(unvisited(n as int, vis_set(vis@)).subset_of(
                    unvisited(n as int, vs).remove(x),
                )) by {
                    assert forall|y: int|
                        #[trigger] unvisited(n as int, vis_set(vis@)).contains(y) implies unvisited(
                        n as int,
                        vs,
                    ).remove(x).contains(y) by {
                        assert(!vis_set(vis@).contains(y));
                        assert(vs.subset_of(vis_set(vis@)));
                    }
                }
                lemma_len_subset(unvisited(n as int, vis_set(vis@)), unvisited(n as int, vs).remove(x));
                assert(unvisited(n as int, vs).remove(x).len() == unvisited(n as int, vs).len()
                    - 1);
            }
        }
    }
    proof {
        assert(view_usizes(queue@).skip(qi as int) =~= Seq::<int>::empty());
        assert(view_usizes(emitted@) =~= goal);
    }
    Ok(emitted)
}

proof fn lemma_bfs_distinct(
    actions: Seq<ActionNode>,
    edges: Seq<Edge>,
    queue: Seq<int>,
    visited: Set<int>,
)
    requires
        forall|j: int| 0 <= j < queue.len() ==> visited.contains(#[trigger] queue[j]),
        forall|j1: int, j2: int|
            #![trigger queue[j1], queue[j2]]
            0 <= j1 < j2 < queue.len() ==> queue[j1] != queue[j2],
    ensures
        ({
            let r = bfs_from(actions, edges, queue, visited);
            &&& forall|k1: int, k2: int|
                #![trigger r[k1], r[k2]]
                0 <= k1 < k2 < r.len() ==> r[k1] != r[k2]
            &&& forall|k: int|
                0 <= k < r.len() ==> (queue.contains(#[trigger] r[k]) || !visited.contains(r[k]))
            &&& forall|k: int|
                0 <= k < r.len() ==> (queue.contains(#[trigger] r[k]) || spec_resolve(
                    actions,
                    actions[r[k]].node_id@,
                ) == Some(r[k]))
            &&& forall|k: int|
                0 <= k < r.len() ==> 0 <= #[trigger] r[k] < actions.len() && !(actions[r[k]].kind
                    is Trigger)
        }),
    decreases unvisited(actions.len() as int, visited).len(), queue.len(),
{
    if queue.len() == 0 {
    } else {
        let n = actions.len() as int;
        let cur = queue[0];
        let targets = spec_succ(actions, edges, cur);
        lemma_succ_in_range(actions, edges, cur, 0);
        lemma_enqueue_props(targets, queue.drop_first(), visited);
        let pair = enqueue_new(targets, queue.drop_first(), visited);
        let (q2, v2) = pair;
        let dq = queue.drop_first();
        // the recursive call's hypotheses hold of the new queue and visited set
        assert forall|j: int| 0 <= j < q2.len() implies v2.contains(#[trigger] q2[j]) by {
            if j < dq.len() {
                assert(q2[j] == dq[j] == queue[j + 1]);
                assert(visited.contains(queue[j + 1]));
            }
        }
        assert forall|j1: int, j2: int|
            #![trigger q2[j1], q2[j2]]
            0 <= j1 < j2 < q2.len() implies q2[j1] != q2[j2] by {
            if j2 < dq.len() {
                assert(q2[j1] == queue[j1 + 1] && q2[j2] == queue[j2 + 1]);
            } else if j1 < dq.len() {
                assert(visited.contains(queue[j1 + 1]));
                assert(q2[j1] == queue[j1 + 1]);
                assert(!visited.contains(q2[j2]));
            }
        }
        // the same measure argument as for the traversal itself
        lemma_int_range(0, n);
        lemma_len_subset(unvisited(n, visited), set_int_range(0, n));
        if q2.len() == dq.len() {
            assert(unvisited(n, v2) =~= unvisited(n, visited));
        } else {
            let x = q2[dq.len() as int];
            assert(!visited.contains(x) && v2.contains(x) && targets.contains(x));
            assert(unvisited(n, visited).contains(x));
            assert(unvisited(n, v2).subset_of(unvisited(n, visited).remove(x))) by {
                assert forall|y: int| #[trigger] unvisited(n, v2).contains(y) implies unvisited(
                    n,
                    visited,
                ).remove(x).contains(y) by {
                    assert(!v2.contains(y));
                    assert(visited.subset_of(v2));
                }
            }
            lemma_len_subset(unvisited(n, v2), unvisited(n, visited).remove(x));
            assert(unvisited(n, visited).remove(x).len() == unvisited(n, visited).len() - 1);
        }
        lemma_bfs_distinct(actions, edges, q2, v2);
        let rest = bfs_from(actions, edges, q2, v2);
        let r = bfs_from(actions, edges, queue, visited);
        // the popped head is not among what follows
        assert(!rest.contains(cur)) by {
            if rest.contains(cur) {
                let k = choose|k: int| 0 <= k < rest.len() && rest[k] == cur;
                assert(q2.contains(cur) || !v2.contains(cur));
                assert(visited.contains(cur));
                assert(visited.subset_of(v2));
                let jq = choose|jq: int| 0 <= jq < q2.len() && q2[jq] == cur;
                if jq < dq.len() {
                    assert(q2[jq] == queue[jq + 1]);
                } else {
                    assert(!visited.contains(q2[jq]));
                }
            }
        }
        if 0 <= cur < actions.len() && !(actions[cur].kind is Trigger) {
            assert(r == seq![cur] + rest);
            assert forall|k1: int, k2: int|
                #![trigger r[k1], r[k2]]
                0 <= k1 < k2 < r.len() implies r[k1] != r[k2] by {
                if k1 == 0 {
                    assert(r[k2] == rest[k2 - 1]);
                    assert(rest.contains(rest[k2 - 1]));
                } else {
                    assert(r[k1] == rest[k1 - 1] && r[k2] == rest[k2 - 1]);
                }
            }
            assert forall|k: int|
                0 <= k < r.len() implies (queue.contains(#[trigger] r[k]) || !visited.contains(
                r[k],
            )) by {
                if k == 0 {
                    assert(queue.contains(cur)) by { assert(queue[0] == cur); }
                } else {
                    lemma_tail_element_source(queue, visited, targets, rest, k - 1);
                }
            }
            assert forall|k: int|
                0 <= k < r.len() implies (queue.contains(#[trigger] r[k]) || spec_resolve(
                actions,
                actions[r[k]].node_id@,
            ) == Some(r[k])) by {
                if k == 0 {
                    assert(queue.contains(cur)) by { assert(queue[0] == cur); }
                } else {
                    lemma_tail_element_canonical(actions, edges, queue, visited, cur, k - 1);
                }
            }
            assert forall|k: int|
                0 <= k < r.len() implies 0 <= #[trigger] r[k] < actions.len() && !(actions[r[k]].kind
                is Trigger) by {
                if k > 0 {
                    assert(r[k] == rest[k - 1]);
                }
            }
        } else {
            assert(r == rest);
            assert forall|k: int|
                0 <= k < r.len() implies (queue.contains(#[trigger] r[k]) || !visited.contains(
                r[k],
            )) by {
                lemma_tail_element_source(queue, visited, targets, rest, k);
            }
            assert forall|k: int|
                0 <= k < r.len() implies (queue.contains(#[trigger] r[k]) || spec_resolve(
                actions,
                actions[r[k]].node_id@,
            ) == Some(r[k])) by {
                lemma_tail_element_canonical(actions, edges, queue, visited, cur, k);
            }
        }
    }
}

/// An element of the traversal's tail either sat in the original queue already
/// or was unvisited when the traversal began.
proof fn lemma_tail_element_source(
    queue: Seq<int>,
    visited: Set<int>,
    targets: Seq<int>,
    rest: Seq<int>,
    k: int,
)
    requires
        0 <= k < rest.len(),
        ({
            let pair = enqueue_new(targets, queue.drop_first(), visited);
            queue.len() > 0 && (pair.0.contains(rest[k]) || !pair.1.contains(rest[k]))
        }),
    ensures
        queue.contains(rest[k]) || !visited.contains(rest[k]),
{
    let dq = queue.drop_first();
    lemma_enqueue_props(targets, dq, visited);
    let pair = enqueue_new(targets, dq, visited);
    let x = rest[k];
    if pair.0.contains(x) {
        let j = choose|j: int| 0 <= j < pair.0.len() && pair.0[j] == x;
        if j < dq.len() {
            assert(pair.0[j] == dq[j] == queue[j + 1]);
            assert(queue.contains(x)) by { assert(queue[j + 1] == x); }
        } else {
            assert(!visited.contains(pair.0[j]));
        }
    } else {
        assert(visited.subset_of(pair.1));
    }
}

/// An element of the traversal's tail either sat in the original queue already
/// or is the canonical index of its node id.
proof fn lemma_tail_element_canonical(
    actions: Seq<ActionNode>,
    edges: Seq<Edge>,
    queue: Seq<int>,
    visited: Set<int>,
    cur: int,
    k: int,
)
    requires
        queue.len() > 0,
        queue[0] == cur,
        ({
            let pair = enqueue_new(spec_succ(actions, edges, cur), queue.drop_first(), visited);
            let rest = bfs_from(actions, edges, pair.0, pair.1);
            0 <= k < rest.len() && (pair.0.contains(rest[k]) || spec_resolve(
                actions,
                actions[rest[k]].node_id@,
            ) == Some(rest[k]))
        }),
    ensures
        ({
            let pair = enqueue_new(spec_succ(actions, edges, cur), queue.drop_first(), visited);
            let rest = bfs_from(actions, edges, pair.0, pair.1);
            queue.contains(rest[k]) || spec_resolve(actions, actions[rest[k]].node_id@) == Some(
                rest[k],
            )
        }),
{
    let targets = spec_succ(actions, edges, cur);
    let dq = queue.drop_first();
    lemma_enqueue_props(targets, dq, visited);
    lemma_succ_in_range(actions, edges, cur, 0);
    let pair = enqueue_new(targets, dq, visited);
    let rest = bfs_from(actions, edges, pair.0, pair.1);
    let x = rest[k];
    if pair.0.contains(x) {
        let j = choose|j: int| 0 <= j < pair.0.len() && pair.0[j] == x;
        if j < dq.len() {
            assert(pair.0[j] == dq[j] == queue[j + 1]);
            assert(queue.contains(x)) by { assert(queue[j + 1] == x); }
        } else {
            assert(targets.contains(pair.0[j]));
        }
    }
}

/// Fan-in deduplication: however many paths reach a node, the plan emits it at
/// most once. The emitted indices are pairwise distinct and name pairwise
/// distinct node ids; each names an in-range, non-trigger action; and the plan
/// is never longer than the action list.
pub proof fn lemma_plan_order_distinct(actions: Seq<ActionNode>, edges: Seq<Edge>)
    requires
        spec_trigger_index(actions) is Some,
    ensures
        ({
            let ord = spec_plan_order(actions, edges);
            &&& forall|k1: int, k2: int|
                #![trigger ord[k1], ord[k2]]
                0 <= k1 < k2 < ord.len() ==> ord[k1] != ord[k2] && actions[ord[k1]].node_id@
                    != actions[ord[k2]].node_id@
            &&& forall|k: int|
                0 <= k < ord.len() ==> 0 <= #[trigger] ord[k] < actions.len() && !(
                actions[ord[k]].kind is Trigger)
            &&& ord.len() <= actions.len()
        }),
{
    let t = spec_trigger_index(actions).unwrap();
    lemma_trigger_props(actions, 0);
    let q0 = seq![t];
    let v0 = Set::<int>::empty().insert(t);
    assert(forall|j: int| 0 <= j < q0.len() ==> v0.contains(#[trigger] q0[j]));
    lemma_bfs_distinct(actions, edges, q0, v0);
    let ord = spec_plan_order(actions, edges);
    assert(ord == bfs_from(actions, edges, q0, v0));
    assert forall|k: int| 0 <= k < ord.len() implies spec_resolve(
        actions,
        actions[#[trigger] ord[k]].node_id@,
    ) == Some(ord[k]) by {
        if q0.contains(ord[k]) {
            let j = choose|j: int| 0 <= j < q0.len() && q0[j] == ord[k];
            assert(ord[k] == t);
            assert(!(actions[ord[k]].kind is Trigger));
        }
    }
    assert forall|k1: int, k2: int|
        #![trigger ord[k1], ord[k2]]
        0 <= k1 < k2 < ord.len() implies ord[k1] != ord[k2] && actions[ord[k1]].node_id@
        != actions[ord[k2]].node_id@ by {
        if actions[ord[k1]].node_id@ == actions[ord[k2]].node_id@ {
            assert(spec_resolve(actions, actions[ord[k1]].node_id@) == Some(ord[k1]));
            assert(spec_resolve(actions, actions[ord[k2]].node_id@) == Some(ord[k2]));
        }
    }
    // distinct in-range indices cannot outnumber the actions
    assert(ord.no_duplicates()) by {
        assert forall|i: int, j: int|
            0 <= i < ord.len() && 0 <= j < ord.len() && i != j implies ord[i] != ord[j] by {
            if i < j {
                assert(ord[i] != ord[j]);
            } else {
                assert(ord[j] != ord[i]);
            }
        }
    }
    ord.unique_seq_to_set();
    assert(ord.to_set().subset_of(set_int_range(0, actions.len() as int))) by {
        assert forall|x: int| #[trigger] ord.to_set().contains(x) implies set_int_range(
            0,
            actions.len() as int,
        ).contains(x) by {
            assert(ord.contains(x));
            let k = choose|k: int| 0 <= k < ord.len() && ord[k] == x;
        }
    }
    lemma_int_range(0, actions.len() as int);
    lemma_len_subset(ord.to_set(), set_int_range(0, actions.len() as int));
}

/// Whether one task-creation record carries what the planner owes the node at
/// the given position: identifiers copied from the trigger task, the node's own
/// id, plugin and verbatim template blobs, a pending status, and the 1-based
/// processing order.
pub open spec fn record_matches(rec: CreateTaskInput, task: Task, action: ActionNode, order: int) -> bool {
    &&& rec.account_id@ == task.account_id@
    &&& rec.task_status is Pending
    &&& rec.flow_id@ == task.flow_id@
    &&& rec.flow_version_id@ == task.flow_version_id@
    &&& rec.flow_version_name@ == (match task.flow_version_name {
        Some(n) => n@,
        None => "unknown"@,
    })
    &&& rec.trigger_id@ == task.trigger_id@
    &&& rec.trigger_session_id@ == task.trigger_session_id@
    &&& rec.trigger_session_status is Pending
    &&& rec.flow_session_id@ == task.flow_session_id@
    &&& rec.flow_session_status is Pending
    &&& rec.node_id@ == action.node_id@
    &&& rec.is_trigger == false
    &&& view_opt(rec.plugin_id) == view_opt(action.plugin_id)
    &&& rec.stage == task.stage
    &&& view_opt(rec.config.variables) == view_opt(action.variables)
    &&& view_opt(rec.config.inputs) == view_opt(action.input)
    &&& rec.test_config is None
    &&& rec.processing_order == order
}

/// Compiles the workflow of a flow version into the ordered task-creation
/// records for one run: one record per reachable non-trigger node, in
/// breadth-first emission order, with `processing_order` counting from 1.
/// Fails with `TriggerNotFound`, and only so, when the workflow has no trigger
/// node; a flow definition that does not even deserialize never reaches this
/// function and is reported as `MalformedWorkflow` by the caller.
pub fn create_execution_plan(trigger: &Task, flow_version: &FlowVersion) -> (r: Result<
    Vec<CreateTaskInput>,
    PlanError,
>)
    requires
        flow_version.workflow.actions@.len() <= 0x7fff_ffff,
    ensures
        match r {
            Ok(recs) => ({
                let acts = flow_version.workflow.actions@;
                let ord = spec_plan_order(acts, flow_version.workflow.edges@);
                &&& spec_trigger_index(acts) is Some
                &&& recs@.len() == ord.len()
                &&& forall|k: int|
                    0 <= k < ord.len() ==> record_matches(
                        #[trigger] recs@[k],
                        *trigger,
                        acts[ord[k]],
                        k + 1,
                    )
            }),
            Err(e) => e is TriggerNotFound && spec_trigger_index(flow_version.workflow.actions@)
                is None,
        },
{
    let workflow = &flow_version.workflow;
    let order = match bfs_traversal(workflow) {
        Ok(order) => order,
        Err(e) => {
            return Err(e);
        },
    };
    proof {
        lemma_plan_order_distinct(workflow.actions@, workflow.edges@);
        assert forall|kk: int| 0 <= kk < order.len() implies (#[trigger] order@[kk])
            < workflow.actions.len() by {
            let ord = spec_plan_order(workflow.actions@, workflow.edges@);
            assert(view_usizes(order@)[kk] == order@[kk] as int);
            assert(0 <= ord[kk] < workflow.actions@.len());
        }
    }
    let mut out: Vec<CreateTaskInput> = Vec::new();
    let n_ord = order.len();
    let mut k: usize = 0;
    while k < n_ord
        invariant
            k <= n_ord,
            n_ord == order.len(),
            spec_trigger_index(flow_version.workflow.actions@) is Some,
            view_usizes(order@) == spec_plan_order(
                flow_version.workflow.actions@,
                flow_version.workflow.edges@,
            ),
            order.len() <= flow_version.workflow.actions.len(),
            flow_version.workflow.actions@.len() <= 0x7fff_ffff,
            forall|kk: int|
                0 <= kk < order.len() ==> (#[trigger] order@[kk]) < flow_version.workflow.actions.len(),
            out.len() == k,
            forall|kk: int|
                0 <= kk < k ==> record_matches(
                    #[trigger] out@[kk],
                    *trigger,
                    flow_version.workflow.actions@[view_usizes(order@)[kk]],
                    kk + 1,
                ),
        decreases n_ord - k,
    {
        let idx = order[k];
        let action = &flow_version.workflow.actions[idx];
        let rec = CreateTaskInput {
            account_id: trigger.account_id.clone(),
            task_status: TaskStatus::Pending,
            flow_id: trigger.flow_id.clone(),
            flow_version_id: trigger.flow_version_id.clone(),
            flow_version_name: match &trigger.flow_version_name {
                Some(nm) => nm.clone(),
                None => String::from_str("unknown"),
            },
            trigger_id: trigger.trigger_id.clone(),
            trigger_session_id: trigger.trigger_session_id.clone(),
            trigger_session_status: TaskStatus::Pending,
            flow_session_id: trigger.flow_session_id.clone(),
            flow_session_status: TaskStatus::Pending,
            node_id: action.node_id.clone(),
            is_trigger: false,
            plugin_id: clone_opt_string(&action.plugin_id),
            stage: trigger.stage,
            config: TaskConfig {
                variables: clone_opt_string(&action.variables),
                inputs: clone_opt_string(&action.input),
            },
            test_config: None,
            processing_order: (k + 1) as i32,
        };
        out.push(rec);
        k = k + 1;
    }
    Ok(out)
}

} // verus!

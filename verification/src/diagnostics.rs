//! Reachability analysis shared by the standard and the fast state machines.
use vstd::prelude::*;
use vstd::set_lib::*;

verus! {

/// `path` starts at one of `seeds` and follows `step` from each node to the next.
pub open spec fn is_path(step: spec_fn(int, int) -> bool, seeds: Set<int>, path: Seq<int>) -> bool {
    &&& path.len() > 0
    &&& seeds.contains(path[0])
    &&& forall|i: int| 0 <= i < path.len() - 1 ==> #[trigger] step(path[i], path[i + 1])
}

/// `v` can be reached from one of `seeds` by finitely many steps of `step`.
pub open spec fn reachable(step: spec_fn(int, int) -> bool, seeds: Set<int>, v: int) -> bool {
    exists|path: Seq<int>| #[trigger] is_path(step, seeds, path) && path.last() == v
}

/// The relation `step` with its direction reversed.
pub open spec fn reverse(step: spec_fn(int, int) -> bool) -> spec_fn(int, int) -> bool {
    |u: int, v: int| step(v, u)
}

/// The node indices listed in `nodes`.
pub open spec fn index_set(nodes: Seq<usize>) -> Set<int> {
    Set::new(|v: int| exists|j: int| 0 <= j < nodes.len() && nodes[j] as int == v)
}

/// One step along an edge list: `u -> v` when `(u, v)` is listed.
pub open spec fn forward_step(edges: Seq<(usize, usize)>) -> spec_fn(int, int) -> bool {
    |u: int, v: int| exists|j: int| 0 <= j < edges.len() && edges[j].0 as int == u && edges[j].1 as int == v
}

/// One step against an edge list: `v -> u` when `(u, v)` is listed.
pub open spec fn backward_step(edges: Seq<(usize, usize)>) -> spec_fn(int, int) -> bool {
    |v: int, u: int| exists|j: int| 0 <= j < edges.len() && edges[j].0 as int == u && edges[j].1 as int == v
}

/// One step along adjacency lists: `u -> v` when `v` is listed for `u`.
pub open spec fn adjacency_step(adjacency: Seq<Vec<usize>>) -> spec_fn(int, int) -> bool {
    |u: int, v: int| 0 <= u < adjacency.len() && 0 <= v < adjacency.len() && adjacency[u]@.contains(v as usize)
}

/// The nodes `0 <= v < n` for which `pred(v)` holds, in increasing order.
pub open spec fn nodes_where(n: nat, pred: spec_fn(int) -> bool) -> Seq<usize>
    decreases n,
{
    if n == 0 {
        Seq::empty()
    } else {
        let rest = nodes_where((n - 1) as nat, pred);
        if pred(n - 1) {
            rest.push((n - 1) as usize)
        } else {
            rest
        }
    }
}

/// Seeds are reachable.
proof fn lemma_seed_reachable(step: spec_fn(int, int) -> bool, seeds: Set<int>, v: int)
    requires
        seeds.contains(v),
    ensures
        reachable(step, seeds, v),
{
    let path = seq![v];
    assert(is_path(step, seeds, path));
}

/// A step from a reachable node reaches its target.
proof fn lemma_step_reachable(step: spec_fn(int, int) -> bool, seeds: Set<int>, u: int, v: int)
    requires
        reachable(step, seeds, u),
        step(u, v),
    ensures
        reachable(step, seeds, v),
{
    let path = choose|path: Seq<int>| #[trigger] is_path(step, seeds, path) && path.last() == u;
    let longer = path.push(v);
    assert forall|i: int| 0 <= i < longer.len() - 1 implies #[trigger] step(longer[i], longer[i + 1]) by {
        if i < path.len() - 1 {
            assert(longer[i] == path[i] && longer[i + 1] == path[i + 1]);
        }
    }
    assert(is_path(step, seeds, longer));
}

/// A set that holds the seeds and is closed under `step` holds every node of
/// a path.
proof fn lemma_closed_holds_path(
    step: spec_fn(int, int) -> bool,
    seeds: Set<int>,
    closed: Set<int>,
    path: Seq<int>,
    i: int,
)
    requires
        seeds.subset_of(closed),
        forall|u: int, w: int| closed.contains(u) && #[trigger] step(u, w) ==> closed.contains(w),
        is_path(step, seeds, path),
        0 <= i < path.len(),
    ensures
        closed.contains(path[i]),
    decreases i,
{
    if i > 0 {
        lemma_closed_holds_path(step, seeds, closed, path, i - 1);
        assert(step(path[i - 1], path[(i - 1) + 1]));
    }
}

/// A set that holds the seeds and is closed under `step` holds every
/// reachable node.
proof fn lemma_closed_holds_reachable(
    step: spec_fn(int, int) -> bool,
    seeds: Set<int>,
    closed: Set<int>,
    v: int,
)
    requires
        seeds.subset_of(closed),
        forall|u: int, w: int| closed.contains(u) && #[trigger] step(u, w) ==> closed.contains(w),
        reachable(step, seeds, v),
    ensures
        closed.contains(v),
{
    let path = choose|path: Seq<int>| #[trigger] is_path(step, seeds, path) && path.last() == v;
    lemma_closed_holds_path(step, seeds, closed, path, path.len() - 1);
}

/// Marks every node reachable from `seeds` along `adjacency`.
fn mark_reachable(adjacency: &Vec<Vec<usize>>, seeds: &Vec<usize>) -> (seen: Vec<bool>)
    requires
        forall|u: int, j: int|
            0 <= u < adjacency@.len() && 0 <= j < adjacency@[u]@.len() ==> #[trigger] adjacency@[u]@[j]
                < adjacency@.len(),
        forall|j: int| 0 <= j < seeds@.len() ==> #[trigger] seeds@[j] < adjacency@.len(),
    ensures
        seen@.len() == adjacency@.len(),
        forall|v: int|
            0 <= v < seen@.len() ==> (#[trigger] seen@[v] <==> reachable(
                adjacency_step(adjacency@),
                index_set(seeds@),
                v,
            )),
{
    let n = adjacency.len();
    let ghost step = adjacency_step(adjacency@);
    let ghost seed_set = index_set(seeds@);
    let mut seen: Vec<bool> = Vec::new();
    let mut i: usize = 0;
    while i < n
        invariant
            i <= n,
            seen@.len() == i,
            forall|v: int| 0 <= v < i ==> !seen@[v],
        decreases n - i,
    {
        seen.push(false);
        i = i + 1;
    }
    let ghost mut marked: Set<int> = Set::empty();
    let mut stack: Vec<usize> = Vec::new();
    let mut s: usize = 0;
    while s < seeds.len()
        invariant
            n == adjacency@.len(),
            step == adjacency_step(adjacency@),
            seed_set == index_set(seeds@),
            forall|j: int| 0 <= j < seeds@.len() ==> #[trigger] seeds@[j] < n,
            s <= seeds@.len(),
            seen@.len() == n,
            marked.finite(),
            forall|v: int| #[trigger] marked.contains(v) ==> 0 <= v < n,
            forall|v: int| 0 <= v < n ==> (#[trigger] seen@[v] <==> marked.contains(v)),
            forall|v: int| #[trigger] marked.contains(v) ==> reachable(step, seed_set, v),
            forall|j: int| 0 <= j < s ==> seen@[#[trigger] seeds@[j] as int],
            forall|j: int| 0 <= j < stack@.len() ==> #[trigger] stack@[j] < n,
            forall|j: int| 0 <= j < stack@.len() ==> seen@[#[trigger] stack@[j] as int],
            forall|u: int| 0 <= u < n && #[trigger] seen@[u] ==> stack@.contains(u as usize),
        decreases seeds@.len() - s,
    {
        let seed = seeds[s];
        if !seen[seed] {
            proof {
                assert(seed_set.contains(seed as int)) by {
                    assert(seeds@[s as int] as int == seed as int);
                }
                lemma_seed_reachable(step, seed_set, seed as int);
                marked = marked.insert(seed as int);
            }
            let ghost prev_stack = stack@;
            let ghost prev_seen = seen@;
            seen.set(seed, true);
            stack.push(seed);
            proof {
                assert forall|u: int| 0 <= u < n && #[trigger] seen@[u] implies stack@.contains(
                    u as usize,
                ) by {
                    if u != seed as int {
                        assert(prev_seen[u]);
                        let j = choose|j: int| 0 <= j < prev_stack.len() && prev_stack[j] == u as usize;
                        assert(stack@[j] == u as usize);
                    } else {
                        assert(stack@[stack@.len() - 1] == seed);
                    }
                }
                assert forall|j: int| 0 <= j < stack@.len() implies seen@[#[trigger] stack@[j] as int] by {
                    if j < prev_stack.len() {
                        assert(stack@[j] == prev_stack[j]);
                        assert(prev_seen[prev_stack[j] as int]);
                    }
                }
            }
        }
        assert(seen@[seeds@[s as int] as int]);
        s = s + 1;
    }
    proof {
        lemma_int_range(0, n as int);
        lemma_len_subset(marked, set_int_range(0, n as int));
        assert forall|u: int, j: int|
            0 <= u < n && seen@[u] && !stack@.contains(u as usize) && 0 <= j < adjacency@[u]@.len()
                implies seen@[#[trigger] adjacency@[u]@[j] as int] by {}
    }
    loop
        invariant
            n == adjacency@.len(),
            step == adjacency_step(adjacency@),
            seed_set == index_set(seeds@),
            forall|u: int, j: int|
                0 <= u < adjacency@.len() && 0 <= j < adjacency@[u]@.len()
                    ==> #[trigger] adjacency@[u]@[j] < adjacency@.len(),
            forall|j: int| 0 <= j < seeds@.len() ==> #[trigger] seeds@[j] < n,
            seen@.len() == n,
            marked.finite(),
            marked.len() <= n,
            forall|v: int| #[trigger] marked.contains(v) ==> 0 <= v < n,
            forall|v: int| 0 <= v < n ==> (#[trigger] seen@[v] <==> marked.contains(v)),
            forall|v: int| #[trigger] marked.contains(v) ==> reachable(step, seed_set, v),
            forall|j: int| 0 <= j < seeds@.len() ==> seen@[#[trigger] seeds@[j] as int],
            forall|j: int| 0 <= j < stack@.len() ==> #[trigger] stack@[j] < n,
            forall|j: int| 0 <= j < stack@.len() ==> seen@[#[trigger] stack@[j] as int],
            forall|u: int, j: int|
                0 <= u < n && seen@[u] && !stack@.contains(u as usize) && 0 <= j
                    < adjacency@[u]@.len() ==> seen@[#[trigger] adjacency@[u]@[j] as int],
        ensures
            stack@.len() == 0,
            seen@.len() == n,
            forall|v: int| 0 <= v < n ==> (#[trigger] seen@[v] <==> marked.contains(v)),
            forall|v: int| #[trigger] marked.contains(v) ==> reachable(step, seed_set, v),
            forall|j: int| 0 <= j < seeds@.len() ==> seen@[#[trigger] seeds@[j] as int],
            forall|u: int, j: int|
                0 <= u < n && seen@[u] && 0 <= j < adjacency@[u]@.len() ==> seen@[
                #[trigger] adjacency@[u]@[j] as int],
        decreases n - marked.len(), stack@.len(),
    {
        let ghost old_stack = stack@;
        let ghost old_marked = marked;
        match stack.pop() {
            None => {
                break ;
            },
            Some(source) => {
                let succ = &adjacency[source];
                proof {
                    assert(old_stack[old_stack.len() - 1] == source);
                    assert(seen@[source as int]);
                    assert forall|u: int, k: int|
                        0 <= u < n && u != source as int && seen@[u] && !stack@.contains(u as usize)
                            && 0 <= k < adjacency@[u]@.len() implies seen@[
                    #[trigger] adjacency@[u]@[k] as int] by {
                        if old_stack.contains(u as usize) {
                            let m = choose|m: int| 0 <= m < old_stack.len() && old_stack[m] == u as usize;
                            assert(m < old_stack.len() - 1);
                            assert(stack@[m] == u as usize);
                        }
                    }
                }
                let mut j: usize = 0;
                while j < succ.len()
                    invariant
                        n == adjacency@.len(),
                        step == adjacency_step(adjacency@),
                        *succ == adjacency@[source as int],
                        source < n,
                        seen@[source as int],
                        old_stack.len() > 0,
                        forall|u: int, k: int|
                            0 <= u < adjacency@.len() && 0 <= k < adjacency@[u]@.len()
                                ==> #[trigger] adjacency@[u]@[k] < adjacency@.len(),
                        forall|k: int| 0 <= k < seeds@.len() ==> #[trigger] seeds@[k] < n,
                        j <= succ@.len(),
                        seen@.len() == n,
                        marked.finite(),
                        old_marked.subset_of(marked),
                        old_marked.finite(),
                        stack@.len() + old_marked.len() == old_stack.len() - 1 + marked.len(),
                        stack@.len() >= old_stack.len() - 1,
                        forall|k: int| 0 <= k < old_stack.len() - 1 ==> #[trigger] stack@[k] == old_stack[k],
                        forall|v: int| #[trigger] marked.contains(v) ==> 0 <= v < n,
                        forall|v: int| 0 <= v < n ==> (#[trigger] seen@[v] <==> marked.contains(v)),
                        forall|v: int| #[trigger] marked.contains(v) ==> reachable(step, seed_set, v),
                        forall|k: int| 0 <= k < seeds@.len() ==> seen@[#[trigger] seeds@[k] as int],
                        forall|k: int| 0 <= k < stack@.len() ==> #[trigger] stack@[k] < n,
                        forall|k: int| 0 <= k < stack@.len() ==> seen@[#[trigger] stack@[k] as int],
                        forall|k: int| 0 <= k < j ==> seen@[#[trigger] succ@[k] as int],
                        forall|u: int, k: int|
                            0 <= u < n && u != source as int && seen@[u] && !stack@.contains(
                                u as usize,
                            ) && 0 <= k < adjacency@[u]@.len() ==> seen@[
                            #[trigger] adjacency@[u]@[k] as int],
                    decreases succ@.len() - j,
                {
                    let target = succ[j];
                    if !seen[target] {
                        proof {
                            assert(step(source as int, target as int)) by {
                                assert(succ@[j as int] == target);
                            }
                            lemma_step_reachable(step, seed_set, source as int, target as int);
                            marked = marked.insert(target as int);
                        }
                        let ghost prev_stack = stack@;
                        let ghost prev_seen = seen@;
                        seen.set(target, true);
                        stack.push(target);
                        proof {
                            assert forall|k: int| 0 <= k < seeds@.len() implies seen@[#[trigger] seeds@[k] as int] by {
                                assert(prev_seen[seeds@[k] as int]);
                            }
                            assert forall|k: int| 0 <= k < stack@.len() implies seen@[#[trigger] stack@[k] as int] by {
                                if k < prev_stack.len() {
                                    assert(stack@[k] == prev_stack[k]);
                                    assert(prev_seen[prev_stack[k] as int]);
                                }
                            }
                            assert forall|k: int| 0 <= k < j implies seen@[#[trigger] succ@[k] as int] by {
                                assert(prev_seen[succ@[k] as int]);
                            }
                            assert forall|u: int, k: int|
                                0 <= u < n && u != source as int && seen@[u] && !stack@.contains(
                                    u as usize,
                                ) && 0 <= k < adjacency@[u]@.len() implies seen@[
                            #[trigger] adjacency@[u]@[k] as int] by {
                                assert(u != target as int) by {
                                    assert(stack@[stack@.len() - 1] == target);
                                }
                                if prev_stack.contains(u as usize) {
                                    let m = choose|m: int|
                                        0 <= m < prev_stack.len() && prev_stack[m] == u as usize;
                                    assert(stack@[m] == u as usize);
                                }
                            }
                        }
                    }
                    j = j + 1;
                }
                proof {
                    assert forall|u: int, k: int|
                        0 <= u < n && seen@[u] && !stack@.contains(u as usize) && 0 <= k
                            < adjacency@[u]@.len() implies seen@[#[trigger] adjacency@[u]@[k] as int] by {
                        if u == source as int {
                            assert(succ@[k] == adjacency@[u]@[k]);
                        } else if old_stack.contains(u as usize) {
                            let m = choose|m: int| 0 <= m < old_stack.len() && old_stack[m] == u as usize;
                            if m < old_stack.len() - 1 {
                                assert(stack@[m] == u as usize);
                            } else {
                                assert(old_stack[old_stack.len() - 1] == source);
                            }
                        }
                    }
                    lemma_int_range(0, n as int);
                    lemma_len_subset(marked, set_int_range(0, n as int));
                    if marked.len() == old_marked.len() {
                        assert(stack@.len() < old_stack.len());
                    } else {
                        vstd::set_lib::lemma_len_subset(old_marked, marked);
                    }
                }
            },
        }
    }
    proof {
        assert forall|v: int| 0 <= v < n implies (#[trigger] seen@[v] <==> reachable(
            step,
            seed_set,
            v,
        )) by {
            if reachable(step, seed_set, v) {
                assert(seed_set.subset_of(marked)) by {
                    assert forall|w: int| seed_set.contains(w) implies marked.contains(w) by {
                        let j = choose|j: int| 0 <= j < seeds@.len() && seeds@[j] as int == w;
                        assert(seen@[seeds@[j] as int]);
                    }
                }
                assert forall|u: int, w: int| marked.contains(u) && #[trigger] step(u, w) implies marked.contains(
                    w,
                ) by {
                    let k = choose|k: int| 0 <= k < adjacency@[u]@.len() && adjacency@[u]@[k] == w as usize;
                    assert(seen@[adjacency@[u]@[k] as int]);
                }
                lemma_closed_holds_reachable(step, seed_set, marked, v);
            }
        }
    }
    seen
}

/// Offline reachability findings for a validated finite state machine.
#[derive(Debug, Clone, PartialEq, Eq)]
pub struct GraphDiagnostics<S> {
    /// States not reachable from the configured initial state.
    unreachable_states: Vec<S>,
    /// States with no path to any configured terminal state.
    states_without_terminal_path: Vec<S>,
}

impl<S> View for GraphDiagnostics<S> {
    /// The unreachable states, then the states without a terminal path.
    type V = (Seq<S>, Seq<S>);

    closed spec fn view(&self) -> (Seq<S>, Seq<S>) {
        (self.unreachable_states@, self.states_without_terminal_path@)
    }
}

impl<S> GraphDiagnostics<S> {
    /// Assembles a report from its two findings.
    pub(crate) fn new(unreachable_states: Vec<S>, states_without_terminal_path: Vec<S>) -> (r: Self)
        ensures
            r@ == (unreachable_states@, states_without_terminal_path@),
    {
        GraphDiagnostics { unreachable_states, states_without_terminal_path }
    }

    /// Splits the report into its two findings.
    pub(crate) fn into_parts(self) -> (r: (Vec<S>, Vec<S>))
        ensures
            r.0@ == self@.0,
            r.1@ == self@.1,
    {
        (self.unreachable_states, self.states_without_terminal_path)
    }

    /// Returns the states that cannot be reached from the initial state.
    pub fn unreachable_states(&self) -> (r: &[S])
        ensures
            r@ == self@.0,
    {
        self.unreachable_states.as_slice()
    }

    /// Returns the states from which no terminal state can be reached.
    pub fn states_without_terminal_path(&self) -> (r: &[S])
        ensures
            r@ == self@.1,
    {
        self.states_without_terminal_path.as_slice()
    }
}

/// Adjacency lists of the `n` nodes along (or, with `reversed`, against) `edges`.
fn adjacency_lists(n: usize, edges: &Vec<(usize, usize)>, reversed: bool) -> (adjacency: Vec<Vec<usize>>)
    requires
        forall|j: int| 0 <= j < edges@.len() ==> #[trigger] edges@[j].0 < n && edges@[j].1 < n,
    ensures
        adjacency@.len() == n,
        forall|u: int, k: int|
            0 <= u < n && 0 <= k < adjacency@[u]@.len() ==> #[trigger] adjacency@[u]@[k] < n,
        adjacency_step(adjacency@) == (if reversed { backward_step(edges@) } else { forward_step(edges@) }),
{
    let mut adjacency: Vec<Vec<usize>> = Vec::new();
    let mut i: usize = 0;
    while i < n
        invariant
            i <= n,
            adjacency@.len() == i,
            forall|j: int| 0 <= j < edges@.len() ==> #[trigger] edges@[j].0 < n && edges@[j].1 < n,
            forall|u: int| 0 <= u < i ==> #[trigger] adjacency@[u]@.len() == 0,
        decreases n - i,
    {
        adjacency.push(Vec::new());
        i = i + 1;
    }
    let ghost step = if reversed { backward_step(edges@) } else { forward_step(edges@) };
    let mut e: usize = 0;
    while e < edges.len()
        invariant
            e <= edges@.len(),
            adjacency@.len() == n,
            forall|j: int| 0 <= j < edges@.len() ==> #[trigger] edges@[j].0 < n && edges@[j].1 < n,
            step == (if reversed { backward_step(edges@) } else { forward_step(edges@) }),
            forall|u: int, k: int|
                0 <= u < n && 0 <= k < adjacency@[u]@.len() ==> #[trigger] adjacency@[u]@[k] < n,
            forall|u: int, v: int| #![trigger adjacency@[u]@.contains(v as usize)]
                0 <= u < n && 0 <= v < n ==> (adjacency@[u]@.contains(v as usize) <==> exists|j: int|
                    0 <= j < e && #[trigger] edges@[j] == (if reversed {
                        (v as usize, u as usize)
                    } else {
                        (u as usize, v as usize)
                    })),
        decreases edges@.len() - e,
    {
        let (source, target) = edges[e];
        let (from, to) = if reversed { (target, source) } else { (source, target) };
        let ghost prev = adjacency@;
        adjacency[from].push(to);
        proof {
            assert forall|u: int, v: int| #![trigger adjacency@[u]@.contains(v as usize)] 0 <= u < n && 0 <= v < n implies (adjacency@[u]@.contains(
                v as usize,
            ) <==> exists|j: int|
                0 <= j < e + 1 && #[trigger] edges@[j] == (if reversed {
                    (v as usize, u as usize)
                } else {
                    (u as usize, v as usize)
                })) by {
                let key = if reversed { (v as usize, u as usize) } else { (u as usize, v as usize) };
                let here = u == from as int && v == to as int;
                assert(edges@[e as int] == key <==> here);
                let old_has = prev[u]@.contains(v as usize);
                assert(old_has <==> exists|j: int| 0 <= j < e && #[trigger] edges@[j] == key);
                if u == from as int {
                    assert(adjacency@[u]@ == prev[u]@.push(to));
                    if adjacency@[u]@.contains(v as usize) {
                        let k = choose|k: int| 0 <= k < adjacency@[u]@.len() && adjacency@[u]@[k] == v as usize;
                        if k < prev[u]@.len() {
                            assert(prev[u]@[k] == v as usize);
                        }
                    }
                    if old_has {
                        let k = choose|k: int| 0 <= k < prev[u]@.len() && prev[u]@[k] == v as usize;
                        assert(adjacency@[u]@[k] == v as usize);
                    }
                    if here {
                        assert(adjacency@[u]@[prev[u]@.len() as int] == v as usize);
                    }
                    assert(adjacency@[u]@.contains(v as usize) <==> (old_has || here));
                } else {
                    assert(adjacency@[u] == prev[u]);
                    assert(adjacency@[u]@.contains(v as usize) <==> (old_has || here));
                }
                if exists|j: int| 0 <= j < e + 1 && #[trigger] edges@[j] == key {
                    let j = choose|j: int| 0 <= j < e + 1 && #[trigger] edges@[j] == key;
                    if j < e {
                        assert(old_has);
                    } else {
                        assert(here);
                    }
                }
                if old_has {
                    let j = choose|j: int| 0 <= j < e && #[trigger] edges@[j] == key;
                    assert(0 <= j < e + 1 && edges@[j] == key);
                }
                if here {
                    assert(0 <= e < e + 1 && edges@[e as int] == key);
                }
            }
        }
        e = e + 1;
    }
    proof {
        assert forall|u: int, v: int| #[trigger] adjacency_step(adjacency@)(u, v) == step(u, v) by {
            let key = if reversed { (v as usize, u as usize) } else { (u as usize, v as usize) };
            if step(u, v) {
                let j = choose|j: int| 0 <= j < edges@.len() && edges@[j].0 as int == (if reversed { v } else { u })
                    && edges@[j].1 as int == (if reversed { u } else { v });
                assert(edges@[j] == key);
            }
            if adjacency_step(adjacency@)(u, v) {
                let j = choose|j: int| 0 <= j < edges@.len() && #[trigger] edges@[j] == key;
            }
        }
        assert(adjacency_step(adjacency@) =~= step);
    }
    adjacency
}

/// The nodes `0 <= v < seen.len()` that are not marked, in increasing order.
fn unmarked_nodes(seen: &Vec<bool>, Ghost(pred): Ghost<spec_fn(int) -> bool>) -> (r: Vec<usize>)
    requires
        forall|v: int| 0 <= v < seen@.len() ==> (!#[trigger] seen@[v] <==> pred(v)),
    ensures
        r@ == nodes_where(seen@.len(), pred),
{
    let mut r: Vec<usize> = Vec::new();
    let mut i: usize = 0;
    while i < seen.len()
        invariant
            i <= seen@.len(),
            forall|v: int| 0 <= v < seen@.len() ==> (!#[trigger] seen@[v] <==> pred(v)),
            r@ == nodes_where(i as nat, pred),
        decreases seen@.len() - i,
    {
        if !seen[i] {
            r.push(i);
        }
        i = i + 1;
    }
    r
}

/// Reports the nodes unreachable from `initial` and the nodes that cannot
/// reach any of `terminals`, both in increasing order.
pub(crate) fn analyze_graph(
    state_count: usize,
    initial: usize,
    terminals: &Vec<usize>,
    edges: &Vec<(usize, usize)>,
) -> (r: GraphDiagnostics<usize>)
    requires
        initial < state_count,
        forall|j: int| 0 <= j < terminals@.len() ==> #[trigger] terminals@[j] < state_count,
        forall|j: int| 0 <= j < edges@.len() ==> #[trigger] edges@[j].0 < state_count && edges@[j].1 < state_count,
    ensures
        r@.0 == nodes_where(
            state_count as nat,
            |v: int| !reachable(forward_step(edges@), set![initial as int], v),
        ),
        r@.1 == nodes_where(
            state_count as nat,
            |v: int| !reachable(backward_step(edges@), index_set(terminals@), v),
        ),
{
    let forward = adjacency_lists(state_count, edges, false);
    let reverse = adjacency_lists(state_count, edges, true);
    let seeds = vec![initial];
    proof {
        assert(index_set(seeds@) =~= set![initial as int]) by {
            assert(seeds@[0] == initial);
        }
    }
    let from_initial = mark_reachable(&forward, &seeds);
    let to_terminal = mark_reachable(&reverse, terminals);
    let unreachable = unmarked_nodes(
        &from_initial,
        Ghost(|v: int| !reachable(forward_step(edges@), set![initial as int], v)),
    );
    let without_path = unmarked_nodes(
        &to_terminal,
        Ghost(|v: int| !reachable(backward_step(edges@), index_set(terminals@), v)),
    );
    GraphDiagnostics::new(unreachable, without_path)
}

/// Every node listed by `nodes_where(n, pred)` is below `n`.
pub proof fn lemma_nodes_where_below(n: nat, pred: spec_fn(int) -> bool)
    requires
        n <= usize::MAX,
    ensures
        forall|i: int| 0 <= i < nodes_where(n, pred).len() ==> #[trigger] nodes_where(n, pred)[i] < n,
    decreases n,
{
    if n > 0 {
        let rest = nodes_where((n - 1) as nat, pred);
        lemma_nodes_where_below((n - 1) as nat, pred);
        assert forall|i: int| 0 <= i < nodes_where(n, pred).len() implies #[trigger] nodes_where(n, pred)[i] < n by {
            if i < rest.len() {
                assert(nodes_where(n, pred)[i] == rest[i]);
            }
        }
    }
}

} // verus!

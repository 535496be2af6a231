//! The dependency graph of a registry's tools, and a depth-first search over it
//! that finds cycles and orders tools after their dependencies.
//!
//! A tool name stands for the first tool of that name; its tool dependencies that
//! name some tool are its edges.
use vstd::prelude::*;
use crate::registry::{ToolDefinition, Dependency, DependencyType, tool_names, find_tool};
use crate::text::{str_eq, strings_view};

verus! {

/// Whether tool `i` is the first tool named `name`.
pub open spec fn is_first_named(tools: Seq<ToolDefinition>, i: int, name: Seq<char>) -> bool {
    &&& 0 <= i < tools.len()
    &&& tools[i].name@ == name
    &&& forall|j: int| 0 <= j < i ==> tools[j].name@ != name
}

/// Whether one of the dependencies is a tool dependency named `b`.
pub open spec fn has_tool_dep_in(deps: Seq<Dependency>, b: Seq<char>) -> bool {
    exists|k: int|
        0 <= k < deps.len() && (#[trigger] deps[k]).dep_type == DependencyType::Tool && deps[k].name@ == b
}

/// Tool `a` depends on tool `b` as cycle detection reads it: the first tool named
/// `a` declares a tool dependency on `b`, and some tool is named `b`.
pub open spec fn depends_on(tools: Seq<ToolDefinition>, a: Seq<char>, b: Seq<char>) -> bool {
    &&& tool_names(tools).contains(b)
    &&& exists|i: int| #[trigger] is_first_named(tools, i, a) && has_tool_dep_in(tools[i].depends@, b)
}

/// A dependency cycle: a path of tool names, each depending on the next, that ends
/// where it starts.
pub open spec fn is_dep_cycle(tools: Seq<ToolDefinition>, c: Seq<Seq<char>>) -> bool {
    &&& c.len() >= 2
    &&& c[0] == c.last()
    &&& forall|k: int| 0 <= k < c.len() - 1 ==> depends_on(tools, #[trigger] c[k], c[k + 1])
}

/// The shape of every path that cycle detection reports: at least two names,
/// ending with the name it starts with, its last step a dependency.
pub open spec fn closes_on_dependency(tools: Seq<ToolDefinition>, c: Seq<Seq<char>>) -> bool {
    &&& c.len() >= 2
    &&& c[0] == c.last()
    &&& depends_on(tools, c[c.len() - 2], c.last())
}

/// Whether the tool dependencies hold a cycle.
pub open spec fn has_dep_cycle(tools: Seq<ToolDefinition>) -> bool {
    exists|c: Seq<Seq<char>>| is_dep_cycle(tools, c)
}

/// Tool `v` is the first of its name.
pub(crate) open spec fn canonical(tools: Seq<ToolDefinition>, v: int) -> bool {
    0 <= v < tools.len() && is_first_named(tools, v, tools[v].name@)
}

/// An edge of the search graph: from tool `u` to the first tool `v` of a name that
/// `u` declares as a tool dependency.
pub(crate) open spec fn edge(tools: Seq<ToolDefinition>, u: int, v: int) -> bool {
    &&& 0 <= u < tools.len()
    &&& canonical(tools, v)
    &&& has_tool_dep_in(tools[u].depends@, tools[v].name@)
}

/// Number of unvisited tools.
pub(crate) open spec fn unvisited(m: Seq<u8>) -> nat
    decreases m.len(),
{
    if m.len() == 0 {
        0
    } else {
        unvisited(m.drop_last()) + if m.last() == 0 { 1nat } else { 0nat }
    }
}

pub(crate) proof fn lemma_unvisited_mono(a: Seq<u8>, b: Seq<u8>)
    requires
        a.len() == b.len(),
        forall|x: int| 0 <= x < a.len() && a[x] != 0 ==> b[x] != 0,
    ensures
        unvisited(b) <= unvisited(a),
    decreases a.len(),
{
    if a.len() > 0 {
        lemma_unvisited_mono(a.drop_last(), b.drop_last());
        assert(a[a.len() - 1] != 0 ==> b[b.len() - 1] != 0);
    }
}

pub(crate) proof fn lemma_unvisited_mark(a: Seq<u8>, i: int, v: u8)
    requires
        0 <= i < a.len(),
        a[i] == 0,
        v != 0,
    ensures
        unvisited(a.update(i, v)) < unvisited(a),
    decreases a.len(),
{
    let b = a.update(i, v);
    if i == a.len() - 1 {
        assert(b.drop_last() =~= a.drop_last());
    } else {
        assert(b.drop_last() =~= a.drop_last().update(i, v));
        lemma_unvisited_mark(a.drop_last(), i, v);
    }
}

/// State of the depth-first search for cycles.
pub(crate) struct CycleSearch {
    /// 0 = unvisited, 1 = on the current path, 2 = finished.
    pub(crate) marks: Vec<u8>,
    pub(crate) path: Vec<usize>,
    /// The finished tools, in the order they were finished.
    pub(crate) order: Vec<usize>,
    /// Position of each finished tool in `order`.
    pub(crate) rank: Ghost<Seq<int>>,
    pub(crate) clock: Ghost<int>,
}

impl CycleSearch {
    pub(crate) open spec fn wf(&self, tools: Seq<ToolDefinition>) -> bool {
        &&& self.marks@.len() == tools.len()
        &&& forall|x: int| 0 <= x < tools.len() ==> #[trigger] self.marks@[x] <= 2
        &&& forall|x: int| 0 <= x < tools.len() && #[trigger] self.marks@[x] != 0 ==> canonical(tools, x)
        &&& forall|k: int| 0 <= k < self.path@.len() ==> #[trigger] self.path@[k] < tools.len()
        &&& self.path@.no_duplicates()
        &&& forall|x: usize|
            x < tools.len() ==> (#[trigger] self.marks@[x as int] == 1 <==> self.path@.contains(x))
    }

    /// No cycle was found: the path is a chain of edges, and finished tools lead
    /// only to finished tools finished before them.
    pub(crate) open spec fn clean(&self, tools: Seq<ToolDefinition>) -> bool {
        &&& forall|k: int|
            0 <= k < self.path@.len() - 1 ==> edge(tools, #[trigger] self.path@[k] as int, self.path@[k + 1] as int)
        &&& self.rank@.len() == tools.len()
        &&& self.clock@ >= 0
        &&& self.order@.len() == self.clock@
        &&& forall|k: int|
            0 <= k < self.order@.len() ==> #[trigger] self.order@[k] < tools.len() && self.marks@[self.order@[k] as int] == 2
                && self.rank@[self.order@[k] as int] == k
        &&& forall|x: int|
            0 <= x < tools.len() && #[trigger] self.marks@[x] == 2 ==> 0 <= self.rank@[x] < self.clock@
                && self.order@[self.rank@[x]] == x
        &&& forall|x: int, y: int|
            0 <= x < tools.len() && self.marks@[x] == 2 && #[trigger] edge(tools, x, y) ==> self.marks@[y] == 2
                && self.rank@[y] < self.rank@[x]
    }
}

/// A path of edges through the search graph.
pub(crate) open spec fn is_idx_path(tools: Seq<ToolDefinition>, p: Seq<int>) -> bool {
    &&& p.len() >= 1
    &&& forall|k: int| 0 <= k < p.len() - 1 ==> edge(tools, #[trigger] p[k], p[k + 1])
}

/// Tool `x` can be reached from tool `u` along edges.
pub(crate) open spec fn reach_idx(tools: Seq<ToolDefinition>, u: int, x: int) -> bool {
    exists|p: Seq<int>| #[trigger] is_idx_path(tools, p) && p[0] == u && p.last() == x
}

pub(crate) proof fn lemma_reach_self(tools: Seq<ToolDefinition>, u: int)
    ensures
        reach_idx(tools, u, u),
{
    let p = seq![u];
    assert(is_idx_path(tools, p));
}

pub(crate) proof fn lemma_reach_prepend(tools: Seq<ToolDefinition>, u: int, d: int, x: int)
    requires
        edge(tools, u, d),
        reach_idx(tools, d, x),
    ensures
        reach_idx(tools, u, x),
{
    let p = choose|p: Seq<int>| #[trigger] is_idx_path(tools, p) && p[0] == d && p.last() == x;
    let q = seq![u] + p;
    assert forall|k: int| 0 <= k < q.len() - 1 implies edge(tools, #[trigger] q[k], q[k + 1]) by {
        if k > 0 {
            assert(q[k] == p[k - 1] && q[k + 1] == p[k]);
        }
    }
    assert(is_idx_path(tools, q));
    assert(q.last() == p.last());
}

pub(crate) proof fn lemma_reach_append(tools: Seq<ToolDefinition>, s: int, u: int, v: int)
    requires
        reach_idx(tools, s, u),
        edge(tools, u, v),
    ensures
        reach_idx(tools, s, v),
{
    let p = choose|p: Seq<int>| #[trigger] is_idx_path(tools, p) && p[0] == s && p.last() == u;
    let q = p.push(v);
    assert forall|k: int| 0 <= k < q.len() - 1 implies edge(tools, #[trigger] q[k], q[k + 1]) by {
        if k < p.len() - 1 {
            assert(q[k] == p[k] && q[k + 1] == p[k + 1]);
        }
    }
    assert(is_idx_path(tools, q));
}

/// Tool `y` is on the path, or reached from `node`.
pub(crate) open spec fn on_path_or_reached(tools: Seq<ToolDefinition>, path: Seq<usize>, node: int, y: usize) -> bool {
    path.contains(y) || reach_idx(tools, node, y as int)
}

/// The path may be extended by `node`.
pub(crate) open spec fn chain_to(tools: Seq<ToolDefinition>, path: Seq<usize>, node: int) -> bool {
    path.len() == 0 || edge(tools, path.last() as int, node)
}

pub(crate) proof fn lemma_edge_depends(tools: Seq<ToolDefinition>, u: int, v: int)
    requires
        edge(tools, u, v),
        canonical(tools, u),
    ensures
        depends_on(tools, tools[u].name@, tools[v].name@),
{
    assert(tool_names(tools)[v] == tools[v].name@);
    assert(is_first_named(tools, u, tools[u].name@));
}

pub(crate) open spec fn st_path_before(old_path: Seq<usize>, node: usize) -> Seq<usize> {
    old_path.push(node)
}

/// Names of the tools at the given indices.
pub open spec fn index_names(tools: Seq<ToolDefinition>, p: Seq<usize>) -> Seq<Seq<char>> {
    p.map_values(|i: usize| tools[i as int].name@)
}

/// The depth-first search from tool `node`, given the marks (0 unvisited, 1 on
/// the path, 2 finished) and the path of tools being visited: the marks and path
/// it leaves and the cycle it reports, if any. The node is marked and pushed,
/// then its dependencies are searched in order.
pub open spec fn search_visit(tools: Seq<ToolDefinition>, node: int, marks: Seq<u8>, path: Seq<usize>) -> (
    Seq<u8>,
    Seq<usize>,
    Option<Seq<Seq<char>>>,
)
    decreases tools.len() - path.len(), 0int, 0int,
{
    if path.len() >= tools.len() || !(0 <= node < tools.len()) {
        (marks, path, None)
    } else {
        search_deps(tools, node, 0, marks.update(node, 1), path.push(node as usize))
    }
}

/// The search over the dependencies of `node` from the `j`-th on. A tool
/// dependency on a tool that is on the path reports the path from that tool on,
/// followed by the tool's name, and ends the search there: the node is popped and
/// marked finished, and the tools below it on the path stay as they are. A tool
/// dependency on an unvisited tool is searched, and a cycle found there ends the
/// search too. Once the dependencies are done, the node is popped and finished.
#[verifier::opaque]
pub open spec fn search_deps(tools: Seq<ToolDefinition>, node: int, j: int, marks: Seq<u8>, path: Seq<usize>) -> (
    Seq<u8>,
    Seq<usize>,
    Option<Seq<Seq<char>>>,
)
    decreases tools.len() - path.len(), 1int, tools[node].depends@.len() - j,
{
    if !(0 <= node < tools.len()) || j < 0 || j >= tools[node].depends@.len() {
        (marks.update(node, 2), path.drop_last(), None)
    } else {
        let dep = tools[node].depends@[j];
        if dep.dep_type == DependencyType::Tool && tool_names(tools).contains(dep.name@) {
            let d = first_index(tools, dep.name@);
            if marks[d] == 1 {
                let pos = choose|k: int| 0 <= k < path.len() && path[k] == d;
                (
                    marks.update(node, 2),
                    path.drop_last(),
                    Some(index_names(tools, path.subrange(pos, path.len() as int)).push(dep.name@)),
                )
            } else if marks[d] == 0 {
                let sub = search_visit(tools, d, marks, path);
                if sub.2 is Some {
                    sub
                } else {
                    search_deps(tools, node, j + 1, sub.0, path)
                }
            } else {
                search_deps(tools, node, j + 1, marks, path)
            }
        } else {
            search_deps(tools, node, j + 1, marks, path)
        }
    }
}

/// The cycles that the search reports when it is started, in order, from each
/// tool from the `i`-th on whose first tool of its name is unvisited.
pub open spec fn search_all(tools: Seq<ToolDefinition>, i: int, marks: Seq<u8>, path: Seq<usize>) -> Seq<
    Seq<Seq<char>>,
>
    decreases tools.len() - i,
{
    if i < 0 || i >= tools.len() {
        Seq::empty()
    } else {
        let c = first_index(tools, tools[i].name@);
        if marks[c] == 0 {
            let sub = search_visit(tools, c, marks, path);
            match sub.2 {
                Some(cy) => seq![cy] + search_all(tools, i + 1, sub.0, sub.1),
                None => search_all(tools, i + 1, sub.0, sub.1),
            }
        } else {
            search_all(tools, i + 1, marks, path)
        }
    }
}

/// No tool marked.
pub open spec fn unmarked(n: nat) -> Seq<u8> {
    Seq::new(n, |x: int| 0u8)
}

/// The cycles that cycle detection reports: the search started from each tool
/// in order, with no tool marked and an empty path.
pub open spec fn reported_cycles(tools: Seq<ToolDefinition>) -> Seq<Seq<Seq<char>>> {
    search_all(tools, 0, unmarked(tools.len()), Seq::empty())
}

/// The names of a reported cycle, if any.
pub open spec fn opt_names(r: Option<Vec<String>>) -> Option<Seq<Seq<char>>> {
    match r {
        Some(c) => Some(strings_view(c@)),
        None => None,
    }
}

/// A path of distinct tools that leaves out one tool is shorter than the tools.
proof fn lemma_path_shorter(path: Seq<usize>, node: usize, n: int)
    requires
        path.no_duplicates(),
        forall|k: int| 0 <= k < path.len() ==> path[k] < n,
        node < n,
        !path.contains(node),
    ensures
        path.len() < n,
{
    broadcast use vstd::seq_lib::group_seq_properties;
    let q = path.push(node);
    let qi = q.map_values(|x: usize| x as int);
    assert forall|a: int, b: int| 0 <= a < qi.len() && 0 <= b < qi.len() && a != b implies qi[a] != qi[b] by {
        if b == qi.len() - 1 {
            assert(q[a] == path[a]);
        } else if a == qi.len() - 1 {
            assert(q[b] == path[b]);
        } else {
            assert(q[a] == path[a] && q[b] == path[b]);
        }
    }
    assert(qi.no_duplicates());
    let r = vstd::set_lib::set_int_range(0, n);
    assert forall|x: int| qi.to_set().contains(x) implies r.contains(x) by {
        assert(qi.contains(x));
        let k = choose|k: int| 0 <= k < qi.len() && qi[k] == x;
        if k < path.len() {
            assert(q[k] == path[k]);
        }
    }
    vstd::set_lib::lemma_int_range(0, n);
    vstd::set_lib::lemma_len_subset(qi.to_set(), r);
    qi.unique_seq_to_set();
}

/// Position of `x` in the path.
pub(crate) fn path_position(path: &Vec<usize>, x: usize) -> (r: usize)
    requires
        path@.contains(x),
    ensures
        r < path@.len(),
        path@[r as int] == x,
{
    let mut i: usize = 0;
    while i < path.len()
        invariant
            i <= path@.len(),
            path@.contains(x),
            forall|j: int| 0 <= j < i ==> path@[j] != x,
        decreases path@.len() - i,
    {
        if path[i] == x {
            return i;
        }
        i = i + 1;
    }
    assert(false);
    0
}

/// Popping `node` off the path and finishing it keeps the marks and the path in
/// step.
pub(crate) proof fn lemma_pop_marks(
    tools: Seq<ToolDefinition>,
    old_path: Seq<usize>,
    node: usize,
    before_pop: Seq<usize>,
    marks: Seq<u8>,
    before_marks: Seq<u8>,
    path: Seq<usize>,
)
    requires
        before_pop == old_path.push(node),
        path == before_pop.drop_last(),
        before_pop.no_duplicates(),
        node < tools.len(),
        marks.len() == tools.len(),
        before_marks.len() == tools.len(),
        marks == before_marks.update(node as int, 2),
        forall|x: usize| x < tools.len() ==> (#[trigger] before_marks[x as int] == 1 <==> before_pop.contains(x)),
    ensures
        path == old_path,
        path.no_duplicates(),
        forall|x: usize| x < tools.len() ==> (#[trigger] marks[x as int] == 1 <==> path.contains(x)),
{
    assert(path =~= old_path);
    assert forall|a: int, b: int| 0 <= a < b < path.len() implies path[a] != path[b] by {
        assert(before_pop[a] == path[a] && before_pop[b] == path[b]);
    }
    assert forall|xu: usize| xu < tools.len() implies (#[trigger] marks[xu as int] == 1 <==> path.contains(xu)) by {
        if xu != node {
            assert(marks[xu as int] == before_marks[xu as int]);
            if before_pop.contains(xu) {
                let q = choose|q: int| 0 <= q < before_pop.len() && before_pop[q] == xu;
                assert(q != before_pop.len() - 1);
                assert(path[q] == xu);
            }
            if path.contains(xu) {
                let q = choose|q: int| 0 <= q < path.len() && path[q] == xu;
                assert(before_pop[q] == xu);
            }
        } else {
            assert(marks[xu as int] == 2);
            if path.contains(xu) {
                let q = choose|q: int| 0 <= q < path.len() && path[q] == xu;
                assert(before_pop[q] == node);
                assert(before_pop[before_pop.len() - 1] == node);
                assert(q != before_pop.len() - 1);
                assert(before_pop[q] != before_pop[before_pop.len() - 1]);
            }
        }
    }
}

/// Searches for a cycle from `node`, as a depth-first search that marks tools on
/// the current path and finished tools. The first cycle found is returned as the
/// names along it, ending with the name it started from.
#[verifier::spinoff_prover]
pub(crate) fn find_cycle_from(tools: &Vec<ToolDefinition>, node: usize, st: &mut CycleSearch) -> (r: Option<Vec<String>>)
    requires
        old(st).wf(tools@),
        node < tools@.len(),
        canonical(tools@, node as int),
        old(st).marks@[node as int] == 0,
    ensures
        final(st).wf(tools@),
        forall|x: int| 0 <= x < tools@.len() && old(st).marks@[x] != 0 ==> #[trigger] final(st).marks@[x] != 0,
        r is None ==> final(st).path@ == old(st).path@ && final(st).marks@[node as int] == 2,
        r is None ==> forall|x: int| 0 <= x < tools@.len() && old(st).marks@[x] == 2 ==> #[trigger] final(st).marks@[x] == 2,
        forall|x: int|
            0 <= x < tools@.len() && old(st).marks@[x] == 0 && #[trigger] final(st).marks@[x] != 0 ==> reach_idx(
                tools@,
                node as int,
                x,
            ),
        search_visit(tools@, node as int, old(st).marks@, old(st).path@) == (final(st).marks@, final(st).path@, opt_names(r)),
        r matches Some(c) ==> closes_on_dependency(tools@, strings_view(c@)),
        r matches Some(c) ==> c@.len() > 0 && exists|y: usize|
            y < tools@.len() && tools@[y as int].name@ == c@[0]@ && #[trigger] on_path_or_reached(
                tools@,
                old(st).path@,
                node as int,
                y,
            ),
        old(st).clean(tools@) && chain_to(tools@, old(st).path@, node as int) ==> match r {
            None => {
                &&& final(st).clean(tools@)
                &&& final(st).clock@ >= old(st).clock@
                &&& final(st).rank@[node as int] == final(st).clock@ - 1
                &&& forall|x: int| 0 <= x < tools@.len() && old(st).marks@[x] == 2 ==> #[trigger] final(st).rank@[x] == old(st).rank@[x]
            },
            Some(c) => is_dep_cycle(tools@, strings_view(c@)),
        },
    decreases unvisited(old(st).marks@),
{
    let ghost n = tools@.len();
    let ghost c0 = old(st).clean(tools@) && chain_to(tools@, old(st).path@, node as int);
    let ghost old_marks = st.marks@;
    let ghost old_rank = st.rank@;
    let ghost old_clock = st.clock@;
    let ghost old_path = st.path@;
    let ghost old_order = st.order@;
    proof {
        lemma_unvisited_mark(st.marks@, node as int, 1);
    }
    st.marks.set(node, 1);
    st.path.push(node);
    proof {
        assert(st.path@ == old_path.push(node));
        assert(!old_path.contains(node)) by {
            assert(old_marks[node as int] == 0);
        }
        assert(st.path@.no_duplicates()) by {
            assert forall|a: int, b: int| 0 <= a < b < st.path@.len() implies st.path@[a] != st.path@[b] by {
                if b == st.path@.len() - 1 {
                    assert(old_path[a] == st.path@[a]);
                } else {
                    assert(old_path[a] == st.path@[a] && old_path[b] == st.path@[b]);
                }
            }
        }
        assert forall|xu: usize| xu < n implies (#[trigger] st.marks@[xu as int] == 1 <==> st.path@.contains(xu)) by {
            if xu == node {
                assert(st.path@[st.path@.len() - 1] == node);
            } else {
                if old_path.contains(xu) {
                    let k = choose|k: int| 0 <= k < old_path.len() && old_path[k] == xu;
                    assert(st.path@[k] == xu);
                }
                if st.path@.contains(xu) {
                    let k = choose|k: int| 0 <= k < st.path@.len() && st.path@[k] == xu;
                    if k < old_path.len() {
                        assert(old_path[k] == xu);
                    } else {
                        assert(st.path@[k] == node);
                    }
                }
            }
        }
        if c0 {
            assert forall|x: int, y: int|
                0 <= x < n && st.marks@[x] == 2 && #[trigger] edge(tools@, x, y) implies st.marks@[y] == 2
                    && st.rank@[y] < st.rank@[x] by {
                assert(old_marks[x] == 2);
            }
        }
        lemma_reach_self(tools@, node as int);
        assert(!old_path.contains(node)) by {
            assert(old_marks[node as int] == 0);
        }
        lemma_path_shorter(old_path, node, n as int);
        assert(st.marks@ == old_marks.update(node as int, 1));
        assert(st.path@ == old_path.push(node));
        assert(search_visit(tools@, node as int, old_marks, old_path) == search_deps(
            tools@,
            node as int,
            0,
            st.marks@,
            st.path@,
        )) by {
            reveal(search_deps);
        }
    }
    let tool = &tools[node];
    let mut j: usize = 0;
    while j < tool.depends.len()
        invariant
            n == tools@.len(),
            node < n,
            canonical(tools@, node as int),
            *tool == tools@[node as int],
            j <= tool.depends@.len(),
            st.wf(tools@),
            st.path@ == old_path.push(node),
            old_marks == old(st).marks@,
            old_path == old(st).path@,
            old_rank == old(st).rank@,
            old_clock == old(st).clock@,
            old(st).wf(tools@),
            old_marks[node as int] == 0,
            c0 == (old(st).clean(tools@) && chain_to(tools@, old(st).path@, node as int)),
            forall|x: int| 0 <= x < n && old_marks[x] != 0 ==> #[trigger] st.marks@[x] != 0,
            forall|x: int| 0 <= x < n && old_marks[x] == 2 ==> #[trigger] st.marks@[x] == 2,
            unvisited(st.marks@) < unvisited(old_marks),
            forall|x: int| 0 <= x < n && old_marks[x] == 0 && #[trigger] st.marks@[x] != 0 ==> reach_idx(tools@, node as int, x),
            c0 ==> st.clean(tools@),
            c0 ==> st.clock@ >= old_clock,
            c0 ==> forall|x: int| 0 <= x < n && old_marks[x] == 2 ==> #[trigger] st.marks@[x] == 2 && st.rank@[x] == old_rank[x],
            c0 ==> forall|y: int|
                canonical(tools@, y) && has_tool_dep_in(tool.depends@.take(j as int), tools@[y].name@) ==> #[trigger] st.marks@[y] == 2,
            search_visit(tools@, node as int, old_marks, old_path) == search_deps(
                tools@,
                node as int,
                j as int,
                st.marks@,
                st.path@,
            ),
        decreases tool.depends@.len() - j,
    {
        let dep = &tool.depends[j];
        let ghost m_j = st.marks@;
        let ghost p_j = st.path@;
        assert(*dep == tools@[node as int].depends@[j as int]);
        proof {
            assert forall|y: int|
                canonical(tools@, y) && has_tool_dep_in(tool.depends@.take(j + 1), tools@[y].name@) && !has_tool_dep_in(
                    tool.depends@.take(j as int),
                    tools@[y].name@,
                ) implies dep.dep_type == DependencyType::Tool && dep.name@ == tools@[y].name@ by {
                let k = choose|k: int|
                    0 <= k < tool.depends@.take(j + 1).len() && (#[trigger] tool.depends@.take(j + 1)[k]).dep_type
                        == DependencyType::Tool && tool.depends@.take(j + 1)[k].name@ == tools@[y].name@;
                if k < j {
                    assert(tool.depends@.take(j as int)[k] == tool.depends@.take(j + 1)[k]);
                }
            }
            assert forall|y: int|
                canonical(tools@, y) && has_tool_dep_in(tool.depends@.take(j as int), tools@[y].name@) implies has_tool_dep_in(
                    tool.depends@.take(j + 1),
                    tools@[y].name@,
                ) by {
                let k = choose|k: int|
                    0 <= k < tool.depends@.take(j as int).len() && (#[trigger] tool.depends@.take(j as int)[k]).dep_type
                        == DependencyType::Tool && tool.depends@.take(j as int)[k].name@ == tools@[y].name@;
                assert(tool.depends@.take(j + 1)[k] == tool.depends@.take(j as int)[k]);
            }
        }
        if dep.dep_type == DependencyType::Tool {
            match find_tool(tools, dep.name.as_str()) {
                None => {
                    proof {
                        assert forall|y: int| canonical(tools@, y) implies tools@[y].name@ != dep.name@ by {}
                        if tool_names(tools@).contains(dep.name@) {
                            let k = choose|k: int| 0 <= k < tool_names(tools@).len() && tool_names(tools@)[k] == dep.name@;
                            assert(tools@[k].name@ == dep.name@);
                        }
                    }
                },
                Some(d) => {
                    proof {
                        assert(tool_names(tools@)[d as int] == dep.name@);
                        lemma_first_exists(tools@, dep.name@, d as int);
                        lemma_first_unique(tools@, dep.name@, d as int, first_index(tools@, dep.name@));
                        assert(canonical(tools@, d as int));
                        assert(tool.depends@[j as int].name@ == tools@[d as int].name@);
                        assert(has_tool_dep_in(tools@[node as int].depends@, tools@[d as int].name@));
                        assert(edge(tools@, node as int, d as int));
                        assert forall|y: int| canonical(tools@, y) && tools@[y].name@ == dep.name@ implies y == d by {
                            if y < d {
                                assert(tools@[y].name@ != dep.name@);
                            } else if y > d {
                                assert(tools@[d as int].name@ != tools@[y].name@);
                            }
                        }
                    }
                    let m = st.marks[d];
                    if m == 1 {
                        let pos = path_position(&st.path, d);
                        let mut cycle: Vec<String> = Vec::new();
                        let mut k: usize = pos;
                        while k < st.path.len()
                            invariant
                                pos <= k <= st.path@.len(),
                                st.wf(tools@),
                                strings_view(cycle@) == index_names(tools@, st.path@.subrange(pos as int, k as int)),
                            decreases st.path@.len() - k,
                        {
                            let ghost prev = cycle@;
                            let t = st.path[k];
                            cycle.push(tools[t].name.clone());
                            assert(strings_view(cycle@) =~= strings_view(prev).push(tools@[t as int].name@));
                            assert(index_names(tools@, st.path@.subrange(pos as int, k + 1)) =~= index_names(
                                tools@,
                                st.path@.subrange(pos as int, k as int),
                            ).push(tools@[t as int].name@));
                            k = k + 1;
                        }
                        let ghost body = cycle@;
                        cycle.push(dep.name.clone());
                        proof {
                            let cv = strings_view(cycle@);
                            let p = st.path@;
                            assert(cv =~= strings_view(body).push(dep.name@));
                            assert(p.contains(d));
                            assert(p[p.len() - 1] == node);
                            assert(cv.len() >= 2);
                            assert(cv[0] == tools@[p[pos as int] as int].name@);
                            assert(cv[cv.len() - 2] == tools@[node as int].name@);
                            lemma_edge_depends(tools@, node as int, d as int);
                            assert(closes_on_dependency(tools@, cv));
                            if c0 {
                                assert(cv.len() >= 2);
                                assert(cv[0] == tools@[p[pos as int] as int].name@);
                                assert forall|i: int| 0 <= i < cv.len() - 1 implies depends_on(tools@, #[trigger] cv[i], cv[i + 1]) by {
                                    let u = p[pos + i];
                                    assert(cv[i] == tools@[u as int].name@);
                                    assert(st.marks@[u as int] == 1) by {
                                        assert(p.contains(u));
                                    }
                                    if i < cv.len() - 2 {
                                        let v = p[pos + i + 1];
                                        assert(cv[i + 1] == tools@[v as int].name@);
                                        assert(edge(tools@, u as int, v as int));
                                        lemma_edge_depends(tools@, u as int, v as int);
                                    } else {
                                        assert(u == node);
                                        lemma_edge_depends(tools@, node as int, d as int);
                                    }
                                }
                            }
                        }
                        let ghost before_pop = st.path@;
                        let ghost before_marks = st.marks@;
                        st.path.pop();
                        st.marks.set(node, 2);
                        proof {
                            lemma_pop_marks(tools@, old_path, node, before_pop, st.marks@, before_marks, st.path@);
                            assert(cycle@[0]@ == strings_view(cycle@)[0]);
                            assert(strings_view(cycle@)[0] == tools@[d as int].name@);
                            if d == node {
                                lemma_reach_self(tools@, node as int);
                            } else {
                                assert(before_pop.contains(d));
                                let q = choose|q: int| 0 <= q < before_pop.len() && before_pop[q] == d;
                                assert(q != before_pop.len() - 1);
                                assert(old_path[q] == d);
                                assert(old_path.contains(d));
                            }
                            assert(on_path_or_reached(tools@, old_path, node as int, d));
                            assert(tools@[d as int].name@ == (cycle@[0])@);
                            assert forall|x: int| 0 <= x < n && old_marks[x] == 0 && #[trigger] st.marks@[x] != 0 implies reach_idx(
                                tools@,
                                node as int,
                                x,
                            ) by {
                                if x == node {
                                    lemma_reach_self(tools@, node as int);
                                } else {
                                    assert(before_marks[x] == st.marks@[x]);
                                }
                            }
                        }
                        proof {
                            assert(search_deps(tools@, node as int, j as int, m_j, p_j) == (
                                st.marks@,
                                st.path@,
                                opt_names(Some(cycle)),
                            )) by {
                                reveal(search_deps);
                                let k = choose|k: int| 0 <= k < p_j.len() && p_j[k] == d;
                                assert(p_j[pos as int] == d);
                                assert(k == pos);
                            }
                        }
                        return Some(cycle);
                    } else if m == 0 {
                        let ghost before = st.marks@;
                        let ghost before_rank = st.rank@;
                        proof {
                            lemma_unvisited_mono(old_marks, before);
                        }
                        let ghost path_before = st.path@;
                        let sub = find_cycle_from(tools, d, st);
                        proof {
                            lemma_unvisited_mono(before, st.marks@);
                            assert forall|x: int| 0 <= x < n && old_marks[x] == 0 && #[trigger] st.marks@[x] != 0 implies reach_idx(
                                tools@,
                                node as int,
                                x,
                            ) by {
                                if before[x] == 0 {
                                    lemma_reach_prepend(tools@, node as int, d as int, x);
                                }
                            }
                        }
                        if sub.is_some() {
                            proof {
                                let c = sub->0;
                                let y = choose|y: usize|
                                    y < tools@.len() && tools@[y as int].name@ == c@[0]@ && #[trigger] on_path_or_reached(
                                        tools@,
                                        path_before,
                                        d as int,
                                        y,
                                    );
                                if path_before.contains(y) {
                                    if y == node {
                                        lemma_reach_self(tools@, node as int);
                                    } else {
                                        let q = choose|q: int| 0 <= q < path_before.len() && path_before[q] == y;
                                        assert(q != path_before.len() - 1);
                                        assert(old_path[q] == y);
                                        assert(old_path.contains(y));
                                    }
                                } else {
                                    lemma_reach_prepend(tools@, node as int, d as int, y as int);
                                }
                                assert(on_path_or_reached(tools@, old_path, node as int, y));
                                assert(search_deps(tools@, node as int, j as int, m_j, p_j) == (st.marks@, st.path@, opt_names(sub)))
                                    by {
                                    reveal(search_deps);
                                }
                            }
                            return sub;
                        }
                        proof {
                            assert(st.path@ == p_j);
                            assert(search_deps(tools@, node as int, j as int, m_j, p_j) == search_deps(
                                tools@,
                                node as int,
                                j + 1,
                                st.marks@,
                                st.path@,
                            )) by {
                                reveal(search_deps);
                            }
                            if c0 {
                                assert(chain_to(tools@, st_path_before(old_path, node), d as int));
                                assert forall|x: int| 0 <= x < n && old_marks[x] == 2 implies #[trigger] st.marks@[x] == 2
                                    && st.rank@[x] == old_rank[x] by {
                                    assert(before[x] == 2);
                                    assert(before_rank[x] == old_rank[x]);
                                }
                            }
                        }
                    }
                },
            }
        }
        proof {
            assert(search_deps(tools@, node as int, j as int, m_j, p_j) == search_deps(
                tools@,
                node as int,
                j + 1,
                st.marks@,
                st.path@,
            )) by {
                reveal(search_deps);
            }
        }
        j = j + 1;
    }
    proof {
        assert(tool.depends@.take(tool.depends@.len() as int) =~= tool.depends@);
        assert(search_deps(tools@, node as int, j as int, st.marks@, st.path@) == (
            st.marks@.update(node as int, 2),
            st.path@.drop_last(),
            None::<Seq<Seq<char>>>,
        )) by {
            reveal(search_deps);
        }
    }
    let ghost before_pop = st.path@;
    let ghost before_marks = st.marks@;
    st.path.pop();
    st.marks.set(node, 2);
    let ghost clock_now = st.clock@;
    let ghost rank_now = st.rank@;
    let ghost order_now = st.order@;
    st.order.push(node);
    proof {
        if c0 {
            assert forall|x: int| 0 <= x < n && old_marks[x] == 2 implies rank_now[x] == old_rank[x] by {
                assert(before_marks[x] == 2);
            }
        }
    }
    st.rank = Ghost(st.rank@.update(node as int, clock_now));
    st.clock = Ghost(clock_now + 1);
    proof {
        lemma_pop_marks(tools@, old_path, node, before_pop, st.marks@, before_marks, st.path@);
        if c0 {
            assert(st.path@ =~= old_path);
            assert forall|x: int| 0 <= x < n && #[trigger] st.marks@[x] == 2 implies 0 <= st.rank@[x] < st.clock@
                && st.order@[st.rank@[x]] == x by {
                if x != node {
                    assert(before_marks[x] == 2);
                    assert(order_now[rank_now[x]] == x);
                }
            }
            assert forall|k: int| 0 <= k < st.order@.len() implies #[trigger] st.order@[k] < n && st.marks@[st.order@[k] as int] == 2
                && st.rank@[st.order@[k] as int] == k by {
                if k < order_now.len() {
                    assert(st.order@[k] == order_now[k]);
                    assert(before_marks[order_now[k] as int] == 2);
                    assert(order_now[k] != node);
                }
            }
            assert forall|x: int, y: int|
                0 <= x < n && st.marks@[x] == 2 && #[trigger] edge(tools@, x, y) implies st.marks@[y] == 2
                    && st.rank@[y] < st.rank@[x] by {
                if x == node {
                    assert(before_marks[y] == 2);
                    assert(y != node);
                } else {
                    assert(before_marks[x] == 2);
                    assert(before_marks[y] == 2);
                    assert(y != node);
                }
            }
            assert forall|x: int| 0 <= x < n && old_marks[x] == 2 implies #[trigger] st.rank@[x] == old_rank[x] by {
                assert(x != node);
                assert(rank_now[x] == old_rank[x]);
            }
        }
    }
    None
}

/// The first tool of a name.
pub open spec fn first_index(tools: Seq<ToolDefinition>, name: Seq<char>) -> int {
    choose|i: int| is_first_named(tools, i, name)
}

pub(crate) proof fn lemma_first_unique(tools: Seq<ToolDefinition>, name: Seq<char>, i: int, j: int)
    requires
        is_first_named(tools, i, name),
        is_first_named(tools, j, name),
    ensures
        i == j,
{
    if i < j {
        assert(tools[i].name@ == name);
    } else if j < i {
        assert(tools[j].name@ == name);
    }
}

pub(crate) proof fn lemma_first_exists(tools: Seq<ToolDefinition>, name: Seq<char>, i: int)
    requires
        0 <= i < tools.len(),
        tools[i].name@ == name,
    ensures
        is_first_named(tools, first_index(tools, name), name),
    decreases i,
{
    if forall|j: int| 0 <= j < i ==> tools[j].name@ != name {
        assert(is_first_named(tools, i, name));
    } else {
        let j = choose|j: int| 0 <= j < i && tools[j].name@ != name == false;
        lemma_first_exists(tools, name, j);
    }
}

/// A dependency between names is an edge between their first tools.
pub(crate) proof fn lemma_depends_edge(tools: Seq<ToolDefinition>, a: Seq<char>, b: Seq<char>)
    requires
        depends_on(tools, a, b),
    ensures
        canonical(tools, first_index(tools, a)),
        tools[first_index(tools, a)].name@ == a,
        edge(tools, first_index(tools, a), first_index(tools, b)),
        tools[first_index(tools, b)].name@ == b,
{
    let i = choose|i: int| #[trigger] is_first_named(tools, i, a) && has_tool_dep_in(tools[i].depends@, b);
    lemma_first_exists(tools, a, i);
    lemma_first_unique(tools, a, i, first_index(tools, a));
    let k = choose|k: int| 0 <= k < tool_names(tools).len() && tool_names(tools)[k] == b;
    assert(tools[k].name@ == b);
    lemma_first_exists(tools, b, k);
}

/// Along a dependency cycle, ranks of first tools strictly decrease.
pub(crate) proof fn lemma_rank_descends(tools: Seq<ToolDefinition>, marks: Seq<u8>, rank: Seq<int>, c: Seq<Seq<char>>, k: int)
    requires
        marks.len() == tools.len(),
        forall|i: int| 0 <= i < c.len() ==> marks[first_index(tools, #[trigger] c[i])] == 2,
        forall|x: int, y: int|
            0 <= x < tools.len() && marks[x] == 2 && #[trigger] edge(tools, x, y) ==> marks[y] == 2 && rank[y] < rank[x],
        is_dep_cycle(tools, c),
        1 <= k < c.len(),
    ensures
        rank[first_index(tools, c[k])] < rank[first_index(tools, c[0])],
    decreases k,
{
    assert(depends_on(tools, c[k - 1], c[k]));
    lemma_depends_edge(tools, c[k - 1], c[k]);
    let x = first_index(tools, c[k - 1]);
    assert(marks[first_index(tools, c[k - 1])] == 2);
    if k > 1 {
        lemma_rank_descends(tools, marks, rank, c, k - 1);
    }
}

/// A search that finished every first tool without finding a cycle shows that
/// there is none.
pub(crate) proof fn lemma_ranked_acyclic(tools: Seq<ToolDefinition>, marks: Seq<u8>, rank: Seq<int>)
    requires
        marks.len() == tools.len(),
        forall|x: int| canonical(tools, x) ==> #[trigger] marks[x] == 2,
        forall|x: int, y: int|
            0 <= x < tools.len() && marks[x] == 2 && #[trigger] edge(tools, x, y) ==> marks[y] == 2 && rank[y] < rank[x],
    ensures
        !has_dep_cycle(tools),
{
    if has_dep_cycle(tools) {
        let c = choose|c: Seq<Seq<char>>| is_dep_cycle(tools, c);
        assert forall|i: int| 0 <= i < c.len() implies marks[first_index(tools, #[trigger] c[i])] == 2 by {
            if i < c.len() - 1 {
                assert(depends_on(tools, c[i], c[i + 1]));
                lemma_depends_edge(tools, c[i], c[i + 1]);
            } else {
                assert(depends_on(tools, c[0], c[1]));
                lemma_depends_edge(tools, c[0], c[1]);
            }
        }
        lemma_rank_descends(tools, marks, rank, c, c.len() - 1);
    }
}

/// A path of tool names, each depending on the next.
pub open spec fn is_dep_path(tools: Seq<ToolDefinition>, p: Seq<Seq<char>>) -> bool {
    &&& p.len() >= 1
    &&& forall|k: int| 0 <= k < p.len() - 1 ==> depends_on(tools, #[trigger] p[k], p[k + 1])
}

/// `b` is `a`, or a tool that `a` depends on directly or through other tools.
pub open spec fn reaches(tools: Seq<ToolDefinition>, a: Seq<char>, b: Seq<char>) -> bool {
    exists|p: Seq<Seq<char>>| #[trigger] is_dep_path(tools, p) && p[0] == a && p.last() == b
}

/// Some dependency cycle passes through a tool that `a` reaches.
pub open spec fn cycle_reachable(tools: Seq<ToolDefinition>, a: Seq<char>) -> bool {
    exists|c: Seq<Seq<char>>| #[trigger] is_dep_cycle(tools, c) && reaches(tools, a, c[0])
}

/// An order of `a` and the tools it reaches in which each tool comes after the
/// tools it depends on, and `a` comes last.
pub open spec fn is_dependency_order(tools: Seq<ToolDefinition>, a: Seq<char>, order: Seq<Seq<char>>) -> bool {
    &&& order.len() >= 1
    &&& order.last() == a
    &&& order.no_duplicates()
    &&& forall|b: Seq<char>| #![trigger order.contains(b)] #![trigger reaches(tools, a, b)] order.contains(b) <==> reaches(tools, a, b)
    &&& forall|i: int, b: Seq<char>|
        0 <= i < order.len() && #[trigger] depends_on(tools, order[i], b) ==> exists|j: int|
            0 <= j < i && #[trigger] order[j] == b
}

pub(crate) proof fn lemma_reaches_step(tools: Seq<ToolDefinition>, a: Seq<char>, b: Seq<char>, b2: Seq<char>)
    requires
        reaches(tools, a, b),
        depends_on(tools, b, b2),
    ensures
        reaches(tools, a, b2),
{
    let p = choose|p: Seq<Seq<char>>| #[trigger] is_dep_path(tools, p) && p[0] == a && p.last() == b;
    let q = p.push(b2);
    assert forall|k: int| 0 <= k < q.len() - 1 implies depends_on(tools, #[trigger] q[k], q[k + 1]) by {
        if k < p.len() - 1 {
            assert(q[k] == p[k] && q[k + 1] == p[k + 1]);
        }
    }
    assert(is_dep_path(tools, q));
}

/// A path of edges from a first tool gives a path of names.
pub(crate) proof fn lemma_idx_reach_names(tools: Seq<ToolDefinition>, u: int, x: int)
    requires
        canonical(tools, u),
        reach_idx(tools, u, x),
    ensures
        reaches(tools, tools[u].name@, tools[x].name@),
{
    let p = choose|p: Seq<int>| #[trigger] is_idx_path(tools, p) && p[0] == u && p.last() == x;
    let q = p.map_values(|i: int| tools[i].name@);
    assert forall|k: int| 0 <= k < q.len() - 1 implies depends_on(tools, #[trigger] q[k], q[k + 1]) by {
        assert(edge(tools, p[k], p[k + 1]));
        if k > 0 {
            assert(edge(tools, p[k - 1], p[k]));
        }
        lemma_edge_depends(tools, p[k], p[k + 1]);
    }
    assert(is_dep_path(tools, q));
}

/// A path of names from a tool name gives a path of edges between first tools.
pub(crate) proof fn lemma_names_reach_idx(tools: Seq<ToolDefinition>, a: Seq<char>, b: Seq<char>, u: int)
    requires
        is_first_named(tools, u, a),
        reaches(tools, a, b),
    ensures
        is_first_named(tools, first_index(tools, b), b),
        reach_idx(tools, u, first_index(tools, b)),
{
    let q = choose|q: Seq<Seq<char>>| #[trigger] is_dep_path(tools, q) && q[0] == a && q.last() == b;
    lemma_first_exists(tools, a, u);
    lemma_first_unique(tools, a, u, first_index(tools, a));
    let p = q.map_values(|n: Seq<char>| first_index(tools, n));
    assert forall|k: int| 0 <= k < p.len() - 1 implies edge(tools, #[trigger] p[k], p[k + 1]) by {
        assert(depends_on(tools, q[k], q[k + 1]));
        lemma_depends_edge(tools, q[k], q[k + 1]);
    }
    assert(is_idx_path(tools, p));
    if q.len() == 1 {
        assert(b == a);
    } else {
        assert(depends_on(tools, q[q.len() - 2], q[q.len() - 1]));
        lemma_depends_edge(tools, q[q.len() - 2], q[q.len() - 1]);
    }
}

/// Finished tools lead only to finished tools, so everything reached from a
/// finished tool is finished.
pub(crate) proof fn lemma_closed_reach(tools: Seq<ToolDefinition>, marks: Seq<u8>, u: int, x: int)
    requires
        marks.len() == tools.len(),
        0 <= u < tools.len(),
        marks[u] == 2,
        forall|v: int, y: int| 0 <= v < tools.len() && marks[v] == 2 && #[trigger] edge(tools, v, y) ==> marks[y] == 2,
        reach_idx(tools, u, x),
    ensures
        0 <= x < tools.len(),
        marks[x] == 2,
{
    let p = choose|p: Seq<int>| #[trigger] is_idx_path(tools, p) && p[0] == u && p.last() == x;
    lemma_closed_path(tools, marks, p, p.len() - 1);
}

proof fn lemma_closed_path(tools: Seq<ToolDefinition>, marks: Seq<u8>, p: Seq<int>, k: int)
    requires
        marks.len() == tools.len(),
        is_idx_path(tools, p),
        0 <= p[0] < tools.len(),
        marks[p[0]] == 2,
        forall|v: int, y: int| 0 <= v < tools.len() && marks[v] == 2 && #[trigger] edge(tools, v, y) ==> marks[y] == 2,
        0 <= k < p.len(),
    ensures
        0 <= p[k] < tools.len(),
        marks[p[k]] == 2,
    decreases k,
{
    if k > 0 {
        lemma_closed_path(tools, marks, p, k - 1);
        assert(edge(tools, p[k - 1], p[k]));
    }
}

proof fn lemma_cycle_members_reached(tools: Seq<ToolDefinition>, a: Seq<char>, c: Seq<Seq<char>>, k: int)
    requires
        is_dep_cycle(tools, c),
        reaches(tools, a, c[0]),
        0 <= k < c.len(),
    ensures
        reaches(tools, a, c[k]),
    decreases k,
{
    if k > 0 {
        lemma_cycle_members_reached(tools, a, c, k - 1);
        assert(depends_on(tools, c[k - 1], c[k]));
        lemma_reaches_step(tools, a, c[k - 1], c[k]);
    }
}

/// A fresh search state for the given tools.
pub(crate) fn fresh_search(tools: &Vec<ToolDefinition>) -> (st: CycleSearch)
    ensures
        st.wf(tools@),
        st.clean(tools@),
        st.path@.len() == 0,
        forall|x: int| 0 <= x < tools@.len() ==> #[trigger] st.marks@[x] == 0,
{
    let n = tools.len();
    let mut marks: Vec<u8> = Vec::new();
    while marks.len() < n
        invariant
            marks@.len() <= n,
            forall|x: int| 0 <= x < marks@.len() ==> marks@[x] == 0,
        decreases n - marks@.len(),
    {
        marks.push(0);
    }
    CycleSearch {
        marks,
        path: Vec::new(),
        order: Vec::new(),
        rank: Ghost(Seq::new(n as nat, |x: int| 0int)),
        clock: Ghost(0int),
    }
}

/// A search from `start` that found no cycle has finished, in order, exactly the
/// tools that `start` reaches, each after those it depends on.
proof fn lemma_search_order(t: Seq<ToolDefinition>, start: int, st: CycleSearch)
    requires
        0 <= start < t.len(),
        t.len() <= usize::MAX,
        canonical(t, start),
        st.wf(t),
        st.clean(t),
        st.path@.len() == 0,
        st.marks@[start] == 2,
        st.rank@[start] == st.clock@ - 1,
        forall|x: int| 0 <= x < t.len() && #[trigger] st.marks@[x] != 0 ==> reach_idx(t, start, x),
    ensures
        is_dependency_order(t, t[start].name@, index_names(t, st.order@)),
        !cycle_reachable(t, t[start].name@),
{
    let a = t[start].name@;
    let order = st.order@;
    let ov = index_names(t, order);
    let marks = st.marks@;
    let rank = st.rank@;
    assert forall|x: int| 0 <= x < t.len() && #[trigger] marks[x] != 0 implies marks[x] == 2 && canonical(t, x)
        && reach_idx(t, start, x) by {
        let xu = x as usize;
        assert(xu as int == x);
        assert(!st.path@.contains(xu));
    }
    // a comes last
    assert(marks[start] == 2);
    assert(order[rank[start]] == start);
    assert(ov.last() == a);
    // no duplicates
    assert forall|i: int, j: int| 0 <= i < ov.len() && 0 <= j < ov.len() && i != j implies ov[i] != ov[j] by {
        let oi = order[i] as int;
        let oj = order[j] as int;
        assert(marks[oi] == 2 && rank[oi] == i);
        assert(marks[oj] == 2 && rank[oj] == j);
        if ov[i] == ov[j] {
            assert(canonical(t, oi) && canonical(t, oj));
            lemma_first_unique(t, t[oi].name@, oi, oj);
        }
    }
    // the tools reached, exactly
    assert forall|b: Seq<char>| ov.contains(b) implies reaches(t, a, b) by {
        let k = choose|k: int| 0 <= k < ov.len() && ov[k] == b;
        let x = order[k] as int;
        assert(marks[x] == 2);
        lemma_idx_reach_names(t, start, x);
    }
    assert forall|b: Seq<char>| reaches(t, a, b) implies ov.contains(b) by {
        lemma_names_reach_idx(t, a, b, start);
        let fb = first_index(t, b);
        lemma_closed_reach(t, marks, start, fb);
        assert(order[rank[fb]] == fb);
        assert(ov[rank[fb]] == b);
    }
    // dependencies first
    assert forall|i: int, b: Seq<char>|
        0 <= i < ov.len() && #[trigger] depends_on(t, ov[i], b) implies exists|j: int| 0 <= j < i && #[trigger] ov[j] == b by {
        let x = order[i] as int;
        assert(marks[x] == 2 && rank[x] == i);
        lemma_depends_edge(t, ov[i], b);
        lemma_first_exists(t, ov[i], x);
        lemma_first_unique(t, ov[i], x, first_index(t, ov[i]));
        let fb = first_index(t, b);
        assert(edge(t, x, fb));
        assert(order[rank[fb]] == fb);
        assert(ov[rank[fb]] == b);
    }
    // no cycle is reached
    if cycle_reachable(t, a) {
        let c = choose|c: Seq<Seq<char>>| #[trigger] is_dep_cycle(t, c) && reaches(t, a, c[0]);
        assert forall|i: int| 0 <= i < c.len() implies marks[first_index(t, #[trigger] c[i])] == 2 by {
            lemma_cycle_members_reached(t, a, c, i);
            lemma_names_reach_idx(t, a, c[i], start);
            lemma_closed_reach(t, marks, start, first_index(t, c[i]));
        }
        lemma_rank_descends(t, marks, rank, c, c.len() - 1);
    }
    assert(ov.len() >= 1);
    assert(ov.no_duplicates());
    assert(is_dependency_order(t, a, ov));
            }

/// Orders the tool `start` and the tools it reaches so that each comes after the
/// tools it depends on, or returns a dependency cycle among them.
pub(crate) fn dependency_order(tools: &Vec<ToolDefinition>, start: usize) -> (r: Result<Vec<usize>, Vec<String>>)
    requires
        start < tools@.len(),
        canonical(tools@, start as int),
    ensures
        match r {
            Ok(order) => is_dependency_order(tools@, tools@[start as int].name@, index_names(tools@, order@))
                && forall|k: int| 0 <= k < order@.len() ==> #[trigger] order@[k] < tools@.len(),
            Err(c) => is_dep_cycle(tools@, strings_view(c@)) && reaches(tools@, tools@[start as int].name@, c@[0]@),
        },
        r is Ok <==> !cycle_reachable(tools@, tools@[start as int].name@),
{
    let mut st = fresh_search(tools);
    let ghost a = tools@[start as int].name@;
    let ghost t = tools@;
    let ghost path0 = st.path@;
    match find_cycle_from(tools, start, &mut st) {
        Some(c) => {
            proof {
                let y = choose|y: usize|
                    y < t.len() && t[y as int].name@ == c@[0]@ && #[trigger] on_path_or_reached(t, path0, start as int, y);
                assert(!path0.contains(y));
                lemma_idx_reach_names(t, start as int, y as int);
                assert(strings_view(c@)[0] == c@[0]@);
                assert(is_dep_cycle(t, strings_view(c@)));
                assert(reaches(t, a, strings_view(c@)[0]));
            }
            Err(c)
        },
        None => {
            proof {
                assert(t.len() == tools.len());
                lemma_search_order(t, start as int, st);
            }
            Ok(st.order)
        },
    }
}

} // verus!

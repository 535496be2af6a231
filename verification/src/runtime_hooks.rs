//! Runtime hooks of the registry: checks before a tool call, dependency-scoped
//! discovery, dependency resolution order and the call context.
use vstd::prelude::*;
use crate::depgraph::{
    has_dep_cycle, is_first_named, depends_on, reaches, is_dep_cycle, cycle_reachable, is_dependency_order,
    canonical, edge, reach_idx, first_index, index_names, dependency_order, fresh_search, unvisited,
    lemma_unvisited_mark, lemma_unvisited_mono, lemma_first_exists, lemma_first_unique,
    lemma_idx_reach_names, lemma_names_reach_idx, lemma_closed_reach, lemma_reach_prepend,
    lemma_reach_self, lemma_reach_append,
};
use crate::registry::{Registry, ToolDefinition, Dependency, DependencyType, tool_names, find_tool, has_agent};
use crate::text::{strings_view, contains_name, concat_str};
use crate::validation::{dep_exists, satisfies, tool_version, constraint_satisfied, find_tool_version};

verus! {

/// Caller identity extracted from requests.
#[derive(Debug, Clone, PartialEq, Eq)]
pub struct CallerIdentity {
    /// Agent name if caller is a registered agent
    pub agent_name: Option<String>,
    /// Agent version if known
    pub agent_version: Option<String>,
    /// Declared dependencies from agent's registration, as a set: their order and
    /// repetitions carry no meaning.
    pub declared_deps: Vec<String>,
}

impl CallerIdentity {
    /// Whether the caller declared `name` as a dependency.
    pub open spec fn declares(&self, name: Seq<char>) -> bool {
        strings_view(self.declared_deps@).contains(name)
    }

    /// A caller that declared no dependencies.
    pub open spec fn is_anonymous(&self) -> bool {
        self.declared_deps@.len() == 0
    }
}

impl Default for CallerIdentity {
    fn default() -> (r: CallerIdentity)
        ensures
            r.agent_name is None,
            r.agent_version is None,
            r.declared_deps@.len() == 0,
    {
        CallerIdentity { agent_name: None, agent_version: None, declared_deps: Vec::new() }
    }
}

/// Execution context passed to tool invocations.
#[derive(Debug, Clone)]
pub struct CallContext {
    /// The caller's identity
    pub caller: CallerIdentity,
    /// Registry for dependency lookups
    pub registry_version: String,
}

/// Result of a pre-call dependency check.
#[derive(Debug, Clone, PartialEq, Eq)]
pub enum DependencyCheckResult {
    /// All dependencies satisfied
    Satisfied,
    /// Dependency not declared by caller
    UndeclaredDependency { tool: String, dependency: String, dep_type: DependencyType },
    /// Dependency not found in registry
    MissingDependency { tool: String, dependency: String, dep_type: DependencyType },
    /// Dependency version mismatch
    VersionMismatch { tool: String, dependency: String, required: String, available: String },
    /// Tool itself is not accessible to caller
    ToolNotAccessible { tool: String, reason: String },
}

/// Tool visibility result for dependency-scoped discovery.
#[derive(Debug, Clone, PartialEq, Eq)]
pub struct ToolVisibility {
    /// Whether the tool is visible to the caller
    pub visible: bool,
    /// If not visible, the reason
    pub reason: Option<String>,
}

/// Runtime hooks for dependency checking and context injection.
pub struct RuntimeHooks<'a> {
    registry: &'a Registry,
}

/// A caller sees a tool when it declared no dependencies at all, or declared that
/// tool.
pub open spec fn visible_to(caller: CallerIdentity, name: Seq<char>) -> bool {
    caller.is_anonymous() || caller.declares(name)
}

/// "tool '<name>' is not among the caller's declared dependencies"
pub open spec fn undeclared_reason(name: Seq<char>) -> Seq<char> {
    "tool '"@ + name + "' is not among the caller's declared dependencies"@
}

/// "tool '<name>' not found in registry"
pub open spec fn not_found_reason(name: Seq<char>) -> Seq<char> {
    "tool '"@ + name + "' not found in registry"@
}

/// The tools a caller sees, in registry order.
pub open spec fn visible_tools(tools: Seq<ToolDefinition>, caller: CallerIdentity) -> Seq<ToolDefinition>
    decreases tools.len(),
{
    if tools.len() == 0 {
        Seq::empty()
    } else {
        let rest = visible_tools(tools.drop_last(), caller);
        if visible_to(caller, tools.last().name@) {
            rest.push(tools.last())
        } else {
            rest
        }
    }
}

/// A dependency's version constraint holds, if it has one and names a tool that
/// declares a version.
pub open spec fn dep_version_ok(tools: Seq<ToolDefinition>, d: Dependency) -> bool {
    !(d.dep_type == DependencyType::Tool && d.version is Some && tool_version(tools, d.name@) is Some && !satisfies(
        tool_version(tools, d.name@)->0,
        d.version->0@,
    ))
}

/// A dependency is satisfied for a caller: it exists, the caller declared it, and
/// its version constraint holds.
pub open spec fn dep_satisfied(reg: Registry, caller: CallerIdentity, d: Dependency) -> bool {
    &&& dep_exists(reg, d)
    &&& caller.declares(d.name@)
    &&& dep_version_ok(reg.tools@, d)
}

/// Dependency `k` of tool `i`, where tool `i` is the first tool of its name and
/// `tool` reaches that name.
pub open spec fn reached_dep(tools: Seq<ToolDefinition>, tool: Seq<char>, i: int, k: int) -> bool {
    &&& is_first_named(tools, i, tools[i].name@)
    &&& reaches(tools, tool, tools[i].name@)
    &&& 0 <= k < tools[i].depends@.len()
}

/// Every dependency of `tool` and of the tools it reaches is satisfied.
pub open spec fn all_deps_satisfied(reg: Registry, caller: CallerIdentity, tool: Seq<char>) -> bool {
    forall|i: int, k: int| #[trigger] reached_dep(reg.tools@, tool, i, k) ==> dep_satisfied(reg, caller, reg.tools@[i].depends@[k])
}

/// What a pre-call check answers.
pub open spec fn pre_call_answer(reg: Registry, caller: CallerIdentity, tool: Seq<char>, r: DependencyCheckResult) -> bool {
    let tools = reg.tools@;
    let present = tool_names(tools).contains(tool);
    &&& (r is ToolNotAccessible <==> !present || !visible_to(caller, tool))
    &&& (r matches DependencyCheckResult::ToolNotAccessible { tool: t, reason } ==> t@ == tool && reason@ == (if !present {
        not_found_reason(tool)
    } else {
        undeclared_reason(tool)
    }))
    &&& (r is Satisfied <==> present && visible_to(caller, tool) && all_deps_satisfied(reg, caller, tool))
    &&& (!(r is Satisfied) && !(r is ToolNotAccessible) ==> exists|i: int, k: int|
        #[trigger] reached_dep(tools, tool, i, k) && dep_failure(reg, caller, tools[i].name@, tools[i].depends@[k], r))
}

/// The answer for a dependency `d` of `tool` that is not satisfied: it is missing,
/// else undeclared, else of the wrong version.
pub open spec fn dep_failure(
    reg: Registry,
    caller: CallerIdentity,
    tool: Seq<char>,
    d: Dependency,
    e: DependencyCheckResult,
) -> bool {
    match e {
        DependencyCheckResult::MissingDependency { tool: t, dependency, dep_type } => {
            &&& t@ == tool
            &&& dependency@ == d.name@
            &&& dep_type == d.dep_type
            &&& !dep_exists(reg, d)
        },
        DependencyCheckResult::UndeclaredDependency { tool: t, dependency, dep_type } => {
            &&& t@ == tool
            &&& dependency@ == d.name@
            &&& dep_type == d.dep_type
            &&& dep_exists(reg, d)
            &&& !caller.declares(d.name@)
        },
        DependencyCheckResult::VersionMismatch { tool: t, dependency, required, available } => {
            &&& t@ == tool
            &&& dependency@ == d.name@
            &&& d.dep_type == DependencyType::Tool
            &&& dep_exists(reg, d)
            &&& caller.declares(d.name@)
            &&& d.version matches Some(v) && v@ == required@
            &&& tool_version(reg.tools@, d.name@) == Some(available@)
            &&& !satisfies(available@, required@)
        },
        _ => false,
    }
}

/// The answer for one dependency of `tool`: none when it is satisfied.
fn dep_problem(reg: &Registry, caller: &CallerIdentity, tool: &String, dep: &Dependency) -> (r: Option<DependencyCheckResult>)
    ensures
        r is None <==> dep_satisfied(*reg, *caller, *dep),
        r matches Some(e) ==> dep_failure(*reg, *caller, tool@, *dep, e),
{
    let tools = &reg.tools;
    let ghost t = tools@;
    let present = match dep.dep_type {
        DependencyType::Tool => find_tool(tools, dep.name.as_str()).is_some(),
        DependencyType::Agent => has_agent(&reg.agents, dep.name.as_str()),
    };
    proof {
        if dep.dep_type == DependencyType::Tool {
            if tool_names(t).contains(dep.name@) {
                let k = choose|k: int| 0 <= k < tool_names(t).len() && tool_names(t)[k] == dep.name@;
                assert(t[k].name@ == dep.name@);
            }
            if present {
                let k = choose|k: int| 0 <= k < t.len() && t[k].name@ == dep.name@;
                assert(tool_names(t)[k] == dep.name@);
            }
        }
    }
    assert(present == dep_exists(*reg, *dep));
    if !present {
        return Some(
            DependencyCheckResult::MissingDependency {
                tool: tool.clone(),
                dependency: dep.name.clone(),
                dep_type: dep.dep_type,
            },
        );
    }
    if !contains_name(&caller.declared_deps, dep.name.as_str()) {
        return Some(
            DependencyCheckResult::UndeclaredDependency {
                tool: tool.clone(),
                dependency: dep.name.clone(),
                dep_type: dep.dep_type,
            },
        );
    }
    if dep.dep_type == DependencyType::Tool {
        match &dep.version {
            Some(required) => {
                match find_tool_version(tools, dep.name.as_str()) {
                    Some(actual) => {
                        if !constraint_satisfied(actual.as_str(), required.as_str()) {
                            return Some(
                                DependencyCheckResult::VersionMismatch {
                                    tool: tool.clone(),
                                    dependency: dep.name.clone(),
                                    required: required.clone(),
                                    available: actual,
                                },
                            );
                        }
                    },
                    None => {},
                }
            },
            None => {},
        }
    }
    None
}

/// " -> " between the names of a cycle.
pub open spec fn join_arrows(c: Seq<Seq<char>>) -> Seq<char>
    decreases c.len(),
{
    if c.len() == 0 {
        Seq::empty()
    } else if c.len() == 1 {
        c[0]
    } else {
        join_arrows(c.drop_last()) + " -> "@ + c.last()
    }
}

/// "dependency cycle detected: a -> b -> a"
pub open spec fn cycle_message(c: Seq<Seq<char>>) -> Seq<char> {
    "dependency cycle detected: "@ + join_arrows(c)
}

/// Names joined by " -> ".
fn join_names(names: &Vec<String>) -> (r: String)
    ensures
        r@ == join_arrows(strings_view(names@)),
{
    let ghost v = strings_view(names@);
    let mut out = String::new();
    let mut i: usize = 0;
    while i < names.len()
        invariant
            i <= names@.len(),
            v == strings_view(names@),
            out@ == join_arrows(v.take(i as int)),
        decreases names@.len() - i,
    {
        assert(v.take(i + 1).drop_last() =~= v.take(i as int));
        assert(v.take(i + 1).last() == names@[i as int]@);
        if i == 0 {
            out = names[i].clone();
            assert(out@ == join_arrows(v.take(1)));
        } else {
            out = concat_str(out.as_str(), " -> ");
            out = concat_str(out.as_str(), names[i].as_str());
        }
        i = i + 1;
    }
    assert(v.take(names@.len() as int) =~= v);
    out
}

impl<'a> RuntimeHooks<'a> {
    /// The registry the hooks read.
    pub closed spec fn reg(&self) -> Registry {
        *self.registry
    }

    /// Hooks over the given registry.
    pub fn new(registry: &'a Registry) -> (r: RuntimeHooks<'a>)
        ensures
            r.reg() == *registry,
    {
        RuntimeHooks { registry }
    }

    /// Whether a specific tool is visible to a caller: it is when the caller
    /// declared no dependencies at all, or declared this tool; otherwise the
    /// answer gives the reason.
    pub fn is_tool_visible(&self, tool_name: &str, caller: &CallerIdentity) -> (r: ToolVisibility)
        ensures
            r.visible == visible_to(*caller, tool_name@),
            r.visible ==> r.reason is None,
            !r.visible ==> (r.reason matches Some(m) && m@ == undeclared_reason(tool_name@)),
    {
        if caller.declared_deps.len() == 0 || contains_name(&caller.declared_deps, tool_name) {
            ToolVisibility { visible: true, reason: None }
        } else {
            let m = concat_str("tool '", tool_name);
            let m = concat_str(m.as_str(), "' is not among the caller's declared dependencies");
            ToolVisibility { visible: false, reason: Some(m) }
        }
    }

    /// The tools visible to a caller, in registry order: all of them for a caller
    /// that declared no dependencies, else those it declared.
    pub fn get_visible_tools(&self, caller: &CallerIdentity) -> (r: Vec<&'a ToolDefinition>)
        ensures
            r@.map_values(|t: &ToolDefinition| *t) == visible_tools(self.reg().tools@, *caller),
    {
        let tools = &self.registry.tools;
        let mut out: Vec<&'a ToolDefinition> = Vec::new();
        let mut i: usize = 0;
        while i < tools.len()
            invariant
                i <= tools@.len(),
                *tools == self.reg().tools,
                out@.map_values(|t: &ToolDefinition| *t) == visible_tools(tools@.take(i as int), *caller),
            decreases tools@.len() - i,
        {
            let t = &tools[i];
            assert(tools@.take(i + 1).drop_last() =~= tools@.take(i as int));
            assert(tools@.take(i + 1).last() == *t);
            if caller.declared_deps.len() == 0 || contains_name(&caller.declared_deps, t.name.as_str()) {
                let ghost prev = out@;
                out.push(t);
                assert(out@.map_values(|x: &ToolDefinition| *x) =~= prev.map_values(|x: &ToolDefinition| *x).push(*t));
            }
            i = i + 1;
        }
        assert(tools@.take(tools@.len() as int) =~= tools@);
        out
    }

    /// Creates an execution context for a tool invocation.
    pub fn create_context(&self, caller: CallerIdentity) -> (r: CallContext)
        ensures
            r.caller == caller,
            r.registry_version@ == self.reg().schema_version@,
    {
        CallContext { caller, registry_version: self.registry.schema_version.clone() }
    }

    /// Resolves the dependencies of a tool in execution order: the tool and the
    /// tools it depends on, directly or not, each after its own dependencies, the
    /// tool last. A dependency cycle among them is an error. A name that no tool
    /// has resolves to itself alone.
    pub fn resolve_dependency_order(&self, tool_name: &str) -> (r: Result<Vec<String>, String>)
        ensures
            !tool_names(self.reg().tools@).contains(tool_name@) ==> (r matches Ok(v) && strings_view(v@) == seq![
                tool_name@,
            ]),
            tool_names(self.reg().tools@).contains(tool_name@) ==> (r is Ok <==> !cycle_reachable(
                self.reg().tools@,
                tool_name@,
            )),
            tool_names(self.reg().tools@).contains(tool_name@) ==> (r matches Ok(v) ==> is_dependency_order(
                self.reg().tools@,
                tool_name@,
                strings_view(v@),
            )),
            r matches Err(e) ==> exists|c: Seq<Seq<char>>|
                #[trigger] is_dep_cycle(self.reg().tools@, c) && reaches(self.reg().tools@, tool_name@, c[0]) && e@
                    == cycle_message(c),
    {
        let tools = &self.registry.tools;
        match find_tool(tools, tool_name) {
            None => {
                proof {
                    if tool_names(tools@).contains(tool_name@) {
                        let k = choose|k: int| 0 <= k < tool_names(tools@).len() && tool_names(tools@)[k] == tool_name@;
                        assert(tools@[k].name@ == tool_name@);
                    }
                }
                let v = vec![tool_name.to_owned()];
                assert(strings_view(v@) =~= seq![tool_name@]);
                Ok(v)
            },
            Some(s) => {
                proof {
                    assert(tool_names(tools@)[s as int] == tool_name@);
                    assert(is_first_named(tools@, s as int, tool_name@));
                }
                match dependency_order(tools, s) {
                    Ok(order) => {
                        let mut names: Vec<String> = Vec::new();
                        let mut i: usize = 0;
                        while i < order.len()
                            invariant
                                i <= order@.len(),
                                forall|k: int| 0 <= k < order@.len() ==> order@[k] < tools@.len(),
                                strings_view(names@) == index_names(tools@, order@).take(i as int),
                            decreases order@.len() - i,
                        {
                            let ghost prev = names@;
                            names.push(tools[order[i]].name.clone());
                            assert(strings_view(names@) =~= strings_view(prev).push(tools@[order@[i as int] as int].name@));
                            assert(index_names(tools@, order@).take(i + 1) =~= index_names(tools@, order@).take(
                                i as int,
                            ).push(tools@[order@[i as int] as int].name@));
                            i = i + 1;
                        }
                        assert(index_names(tools@, order@).take(order@.len() as int) =~= index_names(tools@, order@));
                        Ok(names)
                    },
                    Err(cycle) => {
                        let joined = join_names(&cycle);
                        let e = concat_str("dependency cycle detected: ", joined.as_str());
                        proof {
                            let c = strings_view(cycle@);
                            assert(c[0] == cycle@[0]@);
                            assert(is_dep_cycle(tools@, c) && reaches(tools@, tool_name@, c[0]));
                        }
                        Err(e)
                    },
                }
            },
        }
    }
}

/// Dependency `k` of tool `u` is a tool dependency on the name of tool `v`.
spec fn has_tool_dep_in_witness(t: Seq<ToolDefinition>, u: int, k: int, v: int) -> bool {
    &&& 0 <= k < t[u].depends@.len()
    &&& t[u].depends@[k].dep_type == DependencyType::Tool
    &&& t[u].depends@[k].name@ == t[v].name@
}

/// Every dependency of tool `x` is satisfied, and each of its tool dependencies
/// leads to a tool already seen.
spec fn processed(reg: Registry, caller: CallerIdentity, seen: Seq<u8>, x: int) -> bool {
    forall|k: int|
        0 <= k < reg.tools@[x].depends@.len() ==> dep_satisfied(reg, caller, #[trigger] reg.tools@[x].depends@[k]) && (
        reg.tools@[x].depends@[k].dep_type == DependencyType::Tool ==> seen[first_index(
            reg.tools@,
            reg.tools@[x].depends@[k].name@,
        )] == 2)
}

proof fn lemma_processed_mono(reg: Registry, caller: CallerIdentity, a: Seq<u8>, b: Seq<u8>, x: int)
    requires
        processed(reg, caller, a, x),
        a.len() == b.len(),
        forall|y: int| 0 <= y < a.len() && a[y] == 2 ==> #[trigger] b[y] == 2,
        a.len() == reg.tools@.len(),
        0 <= x < reg.tools@.len(),
    ensures
        processed(reg, caller, b, x),
{
    assert forall|k: int| 0 <= k < reg.tools@[x].depends@.len() implies dep_satisfied(
        reg,
        caller,
        #[trigger] reg.tools@[x].depends@[k],
    ) && (reg.tools@[x].depends@[k].dep_type == DependencyType::Tool ==> b[first_index(
        reg.tools@,
        reg.tools@[x].depends@[k].name@,
    )] == 2) by {
        let d = reg.tools@[x].depends@[k];
        if d.dep_type == DependencyType::Tool {
            let f = first_index(reg.tools@, d.name@);
            assert(dep_exists(reg, d));
            let w = choose|w: int| 0 <= w < tool_names(reg.tools@).len() && tool_names(reg.tools@)[w] == d.name@;
            assert(reg.tools@[w].name@ == d.name@);
            lemma_first_exists(reg.tools@, d.name@, w);
            assert(a[f] == 2);
        }
    }
}

/// Seen tools that are processed lead only to seen tools.
proof fn lemma_processed_closed(reg: Registry, caller: CallerIdentity, seen: Seq<u8>)
    requires
        seen.len() == reg.tools@.len(),
        forall|x: int| 0 <= x < seen.len() && #[trigger] seen[x] == 2 ==> processed(reg, caller, seen, x),
    ensures
        forall|v: int, y: int| 0 <= v < seen.len() && seen[v] == 2 && #[trigger] edge(reg.tools@, v, y) ==> seen[y] == 2,
{
    let t = reg.tools@;
    assert forall|v: int, y: int| 0 <= v < seen.len() && seen[v] == 2 && #[trigger] edge(t, v, y) implies seen[y] == 2 by {
        assert(processed(reg, caller, seen, v));
        let k = choose|k: int|
            0 <= k < t[v].depends@.len() && (#[trigger] t[v].depends@[k]).dep_type == DependencyType::Tool && t[v].depends@[k].name@
                == t[y].name@;
        assert(dep_satisfied(reg, caller, t[v].depends@[k]));
        lemma_first_exists(t, t[y].name@, y);
        lemma_first_unique(t, t[y].name@, y, first_index(t, t[y].name@));
    }
}

/// A failing dependency of a reached tool is a correct answer.
proof fn lemma_failure_answer(g: Registry, caller: CallerIdentity, tool: Seq<char>, u: int, j: int, e: DependencyCheckResult)
    requires
        reached_dep(g.tools@, tool, u, j),
        dep_failure(g, caller, g.tools@[u].name@, g.tools@[u].depends@[j], e),
        tool_names(g.tools@).contains(tool),
        visible_to(caller, tool),
    ensures
        pre_call_answer(g, caller, tool, e),
{
    assert(!dep_satisfied(g, caller, g.tools@[u].depends@[j]));
    assert(!all_deps_satisfied(g, caller, tool));
}

/// Marking tool `v` seen and pushing it keeps the search's bookkeeping.
proof fn lemma_after_push(
    g: Registry,
    caller: CallerIdentity,
    before: Seq<u8>,
    seen: Seq<u8>,
    stack_before: Seq<usize>,
    stack: Seq<usize>,
    u: usize,
    v: usize,
)
    requires
        before.len() == g.tools@.len(),
        v < before.len(),
        before[v as int] == 0,
        seen == before.update(v as int, 2),
        stack == stack_before.push(v),
        v != u,
        !stack_before.contains(u),
        stack_before.no_duplicates(),
        forall|k: int| 0 <= k < stack_before.len() ==> #[trigger] stack_before[k] < before.len() && before[stack_before[k] as int] == 2,
        forall|x: usize|
            x < before.len() && x != u && #[trigger] before[x as int] == 2 && !stack_before.contains(x) ==> processed(g, caller, before, x as int),
    ensures
        forall|x: usize|
            x < seen.len() && x != u && #[trigger] seen[x as int] == 2 && !stack.contains(x) ==> processed(g, caller, seen, x as int),
        forall|k: int| 0 <= k < stack.len() ==> #[trigger] stack[k] < seen.len() && seen[stack[k] as int] == 2,
        stack.no_duplicates(),
        !stack.contains(u),
{
    assert forall|x: usize| x < seen.len() && x != u && #[trigger] seen[x as int] == 2 && !stack.contains(x) implies processed(
        g,
        caller,
        seen,
        x as int,
    ) by {
        assert(x != v) by {
            assert(stack[stack.len() - 1] == v);
        }
        assert(before[x as int] == 2);
        assert(!stack_before.contains(x)) by {
            if stack_before.contains(x) {
                let q = choose|q: int| 0 <= q < stack_before.len() && stack_before[q] == x;
                assert(stack[q] == x);
            }
        }
        lemma_processed_mono(g, caller, before, seen, x as int);
    }
    assert forall|k: int| 0 <= k < stack.len() implies #[trigger] stack[k] < seen.len() && seen[stack[k] as int] == 2 by {
        if k < stack_before.len() {
            assert(stack[k] == stack_before[k]);
            assert(stack_before[k] != v);
        }
    }
    assert(!stack_before.contains(v)) by {
        if stack_before.contains(v) {
            let q = choose|q: int| 0 <= q < stack_before.len() && stack_before[q] == v;
            assert(before[stack_before[q] as int] == 2);
        }
    }
    assert forall|a: int, b: int| 0 <= a < stack.len() && 0 <= b < stack.len() && a != b implies stack[a] != stack[b] by {
        if a < stack_before.len() && b < stack_before.len() {
            assert(stack[a] == stack_before[a] && stack[b] == stack_before[b]);
        } else if a < stack_before.len() {
            assert(stack[a] == stack_before[a]);
        } else if b < stack_before.len() {
            assert(stack[b] == stack_before[b]);
        }
    }
    assert(!stack.contains(u)) by {
        if stack.contains(u) {
            let q = choose|q: int| 0 <= q < stack.len() && stack[q] == u;
            if q < stack_before.len() {
                assert(stack_before[q] == u);
            }
        }
    }
}

impl<'a> RuntimeHooks<'a> {
    /// Checks, before a call, that a tool may be called: the tool exists and is
    /// visible to the caller, and every dependency of the tool and of the tools it
    /// depends on, directly or not, exists, is declared by the caller and meets
    /// its version constraint. Otherwise the answer describes one dependency that
    /// fails, with the first of these checks that it fails.
    #[verifier::rlimit(40)]
    pub fn check_pre_call_dependencies(&self, tool_name: &str, caller: &CallerIdentity) -> (r: DependencyCheckResult)
        ensures
            pre_call_answer(self.reg(), *caller, tool_name@, r),
    {
        let reg = self.registry;
        let tools = &reg.tools;
        let ghost t = tools@;
        let ghost g = *reg;
        let start = match find_tool(tools, tool_name) {
            None => {
                proof {
                    if tool_names(t).contains(tool_name@) {
                        let k = choose|k: int| 0 <= k < tool_names(t).len() && tool_names(t)[k] == tool_name@;
                        assert(t[k].name@ == tool_name@);
                    }
                }
                let m = concat_str("tool '", tool_name);
                let m = concat_str(m.as_str(), "' not found in registry");
                return DependencyCheckResult::ToolNotAccessible { tool: tool_name.to_owned(), reason: m };
            },
            Some(s) => s,
        };
        proof {
            assert(tool_names(t)[start as int] == tool_name@);
            assert(is_first_named(t, start as int, tool_name@));
        }
        if !(caller.declared_deps.len() == 0 || contains_name(&caller.declared_deps, tool_name)) {
            let m = concat_str("tool '", tool_name);
            let m = concat_str(m.as_str(), "' is not among the caller's declared dependencies");
            return DependencyCheckResult::ToolNotAccessible { tool: tool_name.to_owned(), reason: m };
        }
        let n = tools.len();
        let mut seen = fresh_search(tools).marks;
        proof {
            lemma_unvisited_mark(seen@, start as int, 2);
            lemma_reach_self(t, start as int);
        }
        seen.set(start, 2);
        let mut stack: Vec<usize> = Vec::new();
        stack.push(start);
        proof {
            assert forall|x: usize| x < n && #[trigger] seen@[x as int] == 2 && !stack@.contains(x) implies processed(
                g,
                *caller,
                seen@,
                x as int,
            ) by {
                if x == start {
                    assert(stack@[0] == start);
                }
            }
            assert forall|x: int| 0 <= x < n && #[trigger] seen@[x] == 2 implies canonical(t, x) && reach_idx(t, start as int, x) by {
                if x != start {
                    assert(seen@[x] == 0);
                }
            }
        }
        while stack.len() > 0
            invariant
                t == tools@,
                g == *reg,
                g == self.reg(),
                *tools == reg.tools,
                n == t.len(),
                start < n,
                is_first_named(t, start as int, tool_name@),
                tool_names(t).contains(tool_name@),
                visible_to(*caller, tool_name@),
                seen@.len() == n,
                seen@[start as int] == 2,
                forall|x: int| 0 <= x < n ==> #[trigger] seen@[x] == 0 || seen@[x] == 2,
                forall|x: int| 0 <= x < n && #[trigger] seen@[x] == 2 ==> canonical(t, x) && reach_idx(t, start as int, x),
                forall|k: int| 0 <= k < stack@.len() ==> #[trigger] stack@[k] < n && seen@[stack@[k] as int] == 2,
                stack@.no_duplicates(),
                forall|x: usize| x < n && #[trigger] seen@[x as int] == 2 && !stack@.contains(x) ==> processed(g, *caller, seen@, x as int),
            decreases unvisited(seen@), stack@.len(),
        {
            let ghost u0 = unvisited(seen@);
            let ghost l0 = stack@.len();
            let ghost stack0 = stack@;
            let u = stack[stack.len() - 1];
            stack.pop();
            proof {
                assert(stack@ =~= stack0.drop_last());
                assert(!stack@.contains(u)) by {
                    if stack@.contains(u) {
                        let q = choose|q: int| 0 <= q < stack@.len() && stack@[q] == u;
                        assert(stack0[q] == stack0[stack0.len() - 1]);
                    }
                }
                assert forall|k: int| 0 <= k < stack@.len() implies #[trigger] stack@[k] < n && seen@[stack@[k] as int] == 2 by {
                    assert(stack@[k] == stack0[k]);
                }
                assert(stack@.no_duplicates()) by {
                    assert forall|a: int, b: int| 0 <= a < stack@.len() && 0 <= b < stack@.len() && a != b implies stack@[a] != stack@[b] by {
                        assert(stack@[a] == stack0[a] && stack@[b] == stack0[b]);
                    }
                }
                assert forall|x: usize|
                    x < n && x != u && #[trigger] seen@[x as int] == 2 && !stack@.contains(x) implies processed(g, *caller, seen@, x as int) by {
                    if stack0.contains(x) {
                        let q = choose|q: int| 0 <= q < stack0.len() && stack0[q] == x;
                        if q < stack0.len() - 1 {
                            assert(stack@[q] == x);
                        }
                    }
                }
                assert(seen@[u as int] == 2);
                assert(reach_idx(t, start as int, u as int));
                assert(canonical(t, u as int));
                lemma_idx_reach_names(t, start as int, u as int);
            }
            let tool = &tools[u];
            let mut j: usize = 0;
            while j < tool.depends.len()
                invariant
                    t == tools@,
                    g == *reg,
                    g == self.reg(),
                    *tools == reg.tools,
                    n == t.len(),
                    start < n,
                    u < n,
                    *tool == t[u as int],
                    canonical(t, u as int),
                    reach_idx(t, start as int, u as int),
                    reaches(t, tool_name@, t[u as int].name@),
                    is_first_named(t, start as int, tool_name@),
                    tool_names(t).contains(tool_name@),
                    visible_to(*caller, tool_name@),
                    j <= tool.depends@.len(),
                    seen@.len() == n,
                    seen@[u as int] == 2,
                    seen@[start as int] == 2,
                    !stack@.contains(u),
                    forall|x: int| 0 <= x < n ==> #[trigger] seen@[x] == 0 || seen@[x] == 2,
                    forall|x: int| 0 <= x < n && #[trigger] seen@[x] == 2 ==> canonical(t, x) && reach_idx(t, start as int, x),
                    forall|k: int| 0 <= k < stack@.len() ==> #[trigger] stack@[k] < n && seen@[stack@[k] as int] == 2,
                    stack@.no_duplicates(),
                    forall|x: usize|
                        x < n && x != u && #[trigger] seen@[x as int] == 2 && !stack@.contains(x) ==> processed(g, *caller, seen@, x as int),
                    forall|k: int|
                        0 <= k < j ==> dep_satisfied(g, *caller, #[trigger] t[u as int].depends@[k]) && (t[u as int].depends@[k].dep_type
                            == DependencyType::Tool ==> seen@[first_index(t, t[u as int].depends@[k].name@)] == 2),
                    unvisited(seen@) <= u0,
                    unvisited(seen@) + stack@.len() + 1 <= u0 + l0,
                decreases tool.depends@.len() - j,
            {
                let dep = &tool.depends[j];
                let ghost dj = t[u as int].depends@[j as int];
                assert(*dep == dj);
                assert(reached_dep(t, tool_name@, u as int, j as int));
                match dep_problem(reg, caller, &tool.name, dep) {
                    Some(e) => {
                        proof {
                            lemma_failure_answer(g, *caller, tool_name@, u as int, j as int, e);
                        }
                        return e;
                    },
                    None => {},
                }
                if dep.dep_type == DependencyType::Tool {
                    assert(dep_satisfied(g, *caller, dj));
                    match find_tool(tools, dep.name.as_str()) {
                        Some(v) => {
                            proof {
                                assert(is_first_named(t, v as int, dep.name@));
                                lemma_first_exists(t, dep.name@, v as int);
                                lemma_first_unique(t, dep.name@, v as int, first_index(t, dep.name@));
                                assert(canonical(t, v as int));
                                assert(has_tool_dep_in_witness(t, u as int, j as int, v as int));
                                assert(edge(t, u as int, v as int));
                            }
                            let ghost before = seen@;
                            assert(forall|k: int|
                                0 <= k < j ==> dep_satisfied(g, *caller, #[trigger] t[u as int].depends@[k]) && (t[u as int].depends@[k].dep_type
                                    == DependencyType::Tool ==> before[first_index(t, t[u as int].depends@[k].name@)] == 2));
                            if seen[v] == 0 {
                                proof {
                                    lemma_unvisited_mark(seen@, v as int, 2);
                                    lemma_reach_append(t, start as int, u as int, v as int);
                                }
                                seen.set(v, 2);
                                let ghost stack_before = stack@;
                                stack.push(v);
                                proof {
                                    lemma_after_push(g, *caller, before, seen@, stack_before, stack@, u, v);
                                }
                            }
                            proof {
                                assert(seen@[first_index(t, dj.name@)] == 2);
                                assert forall|k: int|
                                    0 <= k < j + 1 implies dep_satisfied(g, *caller, #[trigger] t[u as int].depends@[k]) && (
                                    t[u as int].depends@[k].dep_type == DependencyType::Tool ==> seen@[first_index(
                                        t,
                                        t[u as int].depends@[k].name@,
                                    )] == 2) by {
                                    if k < j {
                                        assert(dep_satisfied(g, *caller, t[u as int].depends@[k]));
                                        if t[u as int].depends@[k].dep_type == DependencyType::Tool {
                                            let nm = t[u as int].depends@[k].name@;
                                            let f = first_index(t, nm);
                                            assert(dep_exists(g, t[u as int].depends@[k]));
                                            let w = choose|w: int| 0 <= w < tool_names(t).len() && tool_names(t)[w] == nm;
                                            assert(t[w].name@ == nm);
                                            lemma_first_exists(t, nm, w);
                                            assert(before[f] == 2);
                                            assert(seen@[f] == 2);
                                        }
                                    } else {
                                        assert(t[u as int].depends@[k] == dj);
                                    }
                                }
                            }
                        },
                        None => {
                            proof {
                                assert(dep_exists(g, dj));
                                let w = choose|w: int| 0 <= w < tool_names(t).len() && tool_names(t)[w] == dj.name@;
                                assert(t[w].name@ == dj.name@);
                            }
                        },
                    }
                }
                assert(dep_satisfied(g, *caller, dj));
                j = j + 1;
            }
            proof {
                assert(processed(g, *caller, seen@, u as int));
            }
        }
        proof {
            assert forall|x: int| 0 <= x < n && #[trigger] seen@[x] == 2 implies processed(g, *caller, seen@, x) by {
                let xu = x as usize;
                assert(xu as int == x);
            }
            lemma_processed_closed(g, *caller, seen@);
            assert forall|i: int, k: int| #[trigger] reached_dep(t, tool_name@, i, k) implies dep_satisfied(g, *caller, t[i].depends@[k]) by {
                lemma_names_reach_idx(t, tool_name@, t[i].name@, start as int);
                lemma_first_unique(t, t[i].name@, i, first_index(t, t[i].name@));
                lemma_closed_reach(t, seen@, start as int, i);
                assert(processed(g, *caller, seen@, i));
            }
        }
        DependencyCheckResult::Satisfied
    }
}

/// A registry whose tool dependencies are acyclic resolves every tool's
/// dependency order: no cycle is reached from any tool.
pub proof fn law_acyclic_registry_resolves(tools: Seq<ToolDefinition>, a: Seq<char>)
    requires
        !has_dep_cycle(tools),
    ensures
        !cycle_reachable(tools, a),
{
    if cycle_reachable(tools, a) {
        let c = choose|c: Seq<Seq<char>>| #[trigger] is_dep_cycle(tools, c) && reaches(tools, a, c[0]);
        assert(has_dep_cycle(tools));
    }
}

/// A caller that declared no dependencies sees every tool.
pub proof fn law_anonymous_sees_all(tools: Seq<ToolDefinition>, caller: CallerIdentity)
    requires
        caller.is_anonymous(),
    ensures
        visible_tools(tools, caller) == tools,
    decreases tools.len(),
{
    if tools.len() > 0 {
        law_anonymous_sees_all(tools.drop_last(), caller);
        assert(tools.drop_last().push(tools.last()) =~= tools);
    }
}

/// A caller that declared dependencies sees exactly the tools it declared.
pub proof fn law_declared_caller_sees_declared(tools: Seq<ToolDefinition>, caller: CallerIdentity, t: ToolDefinition)
    requires
        !caller.is_anonymous(),
    ensures
        visible_tools(tools, caller).contains(t) <==> tools.contains(t) && caller.declares(t.name@),
    decreases tools.len(),
{
    if tools.len() > 0 {
        let init = tools.drop_last();
        let last = tools.last();
        law_declared_caller_sees_declared(init, caller, t);
        let rest = visible_tools(init, caller);
        let all = visible_tools(tools, caller);
        assert(init.push(last) =~= tools);
        if visible_to(caller, last.name@) {
            assert(all == rest.push(last));
            if rest.contains(t) {
                let q = choose|q: int| 0 <= q < rest.len() && rest[q] == t;
                assert(all[q] == t);
            }
            assert(all[rest.len() as int] == last);
        } else {
            assert(all == rest);
        }
        if all.contains(t) {
            let q = choose|q: int| 0 <= q < all.len() && all[q] == t;
            if q < rest.len() {
                assert(rest[q] == t);
                let k = choose|k: int| 0 <= k < init.len() && init[k] == t;
                assert(tools[k] == t);
            } else {
                assert(t == last);
                assert(tools[tools.len() - 1] == t);
            }
        }
        if tools.contains(t) && caller.declares(t.name@) {
            let k = choose|k: int| 0 <= k < tools.len() && tools[k] == t;
            if k < tools.len() - 1 {
                assert(init[k] == t);
            } else {
                assert(t == last);
            }
        }
    }
}

} // verus!

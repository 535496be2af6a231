//! Decisions of the MCP relay that fronts several backend servers: how a backend
//! tool is named to clients, which tools a caller is shown, and where a tool
//! call goes.
use vstd::prelude::*;
use crate::json::{JsonValue, JsonView, find_key, spec_get, members_view, position_of_key, group_json_view, lemma_find_key, lemma_find_key_at};
use crate::registry::{Registry, ToolDefinition, ToolImplementation, find_tool, tool_names};
use crate::registry_error::RegistryError;
use crate::compiled::{resolve_env_vars, spec_resolve_env, ToolListing};
use crate::text::{strings_view, str_to_chars, slice_to_string, concat_str, str_eq, contains_name};

verus! {

broadcast use group_json_view;

/// Separator between a backend's name and a tool's name.
pub const DELIMITER: char = '_';

/// The pseudo-backend under which compositions are listed.
pub const COMPOSITION_TARGET: &'static str = "_composition";

/// The name clients see for `name` of backend `target`: a composition's own
/// name; `<target>_<name>` when several backends are multiplexed (no default
/// target); the plain name otherwise.
pub open spec fn spec_resource_name(has_default: bool, target: Seq<char>, name: Seq<char>) -> Seq<char> {
    if target == COMPOSITION_TARGET@ {
        name
    } else if !has_default {
        target + seq![DELIMITER] + name
    } else {
        name
    }
}

/// The name clients see for tool `name` of backend `target`.
pub fn resource_name(default_target_name: Option<&String>, target: &str, name: &str) -> (r: String)
    ensures
        r@ == spec_resource_name(default_target_name is Some, target@, name@),
{
    if str_eq(target, COMPOSITION_TARGET) {
        name.to_owned()
    } else if default_target_name.is_none() {
        let mut s = concat_str(target, "_");
        proof {
            reveal_strlit("_");
        }
        assert("_"@ == seq![DELIMITER]);
        concat_str(s.as_str(), name)
    } else {
        name.to_owned()
    }
}

/// Splits a client-facing name into (backend, tool): with a default target, the
/// whole name is the tool of that target; otherwise the name is split at its
/// first separator, and a name without one is invalid.
pub fn parse_resource_name(default_target_name: Option<&String>, res: &str) -> (r: Result<(String, String), String>)
    ensures
        match default_target_name {
            Some(d) => r matches Ok((t, n)) && t@ == d@ && n@ == res@,
            None => match r {
                Ok((t, n)) => exists|i: int|
                    0 <= i < res@.len() && res@[i] == DELIMITER && (forall|j: int| 0 <= j < i ==> res@[j] != DELIMITER)
                        && t@ == res@.take(i) && n@ == res@.skip(i + 1),
                Err(m) => (forall|i: int| 0 <= i < res@.len() ==> res@[i] != DELIMITER) && m@ == "invalid resource name"@,
            },
        },
{
    match default_target_name {
        Some(d) => Ok((d.clone(), res.to_owned())),
        None => {
            let chars = str_to_chars(res);
            let mut i: usize = 0;
            while i < chars.len()
                invariant
                    i <= chars@.len(),
                    chars@ == res@,
                    default_target_name is None,
                    forall|j: int| 0 <= j < i ==> chars@[j] != DELIMITER,
                decreases chars@.len() - i,
            {
                if chars[i] == DELIMITER {
                    let t = slice_to_string(&chars, 0, i);
                    let n = slice_to_string(&chars, i + 1, chars.len());
                    assert(res@.take(i as int) == chars@.subrange(0, i as int));
                    assert(res@.skip(i + 1) == chars@.subrange(i + 1, chars@.len() as int));
                    assert(res@[i as int] == DELIMITER);
                    return Ok((t, n));
                }
                i = i + 1;
            }
            Err("invalid resource name".to_owned())
        },
    }
}

/// What a caller that is unknown to the registry is shown.
#[derive(Debug, Clone, Copy, PartialEq, Eq, Structural)]
pub enum UnknownCallerPolicy {
    /// Every tool (backwards compatible).
    AllowAll,
    /// No tool.
    DenyAll,
    /// Registered agents see their dependencies, everyone else every tool.
    AllowUnregistered,
}

impl Default for UnknownCallerPolicy {
    fn default() -> (r: UnknownCallerPolicy)
        ensures
            r == UnknownCallerPolicy::AllowAll,
    {
        UnknownCallerPolicy::AllowAll
    }
}

/// Whether the policy hides every tool from this caller: under `DenyAll`, a
/// caller without identity or not registered as an agent sees nothing.
pub fn denies_all(has_identity: bool, is_registered: bool, policy: UnknownCallerPolicy) -> (r: bool)
    ensures
        r == (policy == UnknownCallerPolicy::DenyAll && !(has_identity && is_registered)),
{
    match policy {
        UnknownCallerPolicy::DenyAll => !(has_identity && is_registered),
        _ => false,
    }
}

/// A backend tool (or prompt, resource, resource template) offered for listing,
/// with the answer of the authorization policies for it.
#[derive(Debug, Clone, PartialEq, Eq)]
pub struct ListedTool {
    /// The backend that offers the tool
    pub server: String,
    /// The tool's name on that backend
    pub name: String,
    /// Whether the authorization policies allow the tool
    pub allowed: bool,
}

/// Whether a listed tool is shown: nothing is when the policy denies all; else
/// the authorization policies must allow it, and, for an agent whose tool
/// dependencies are known, it must be one of them.
pub open spec fn tool_shown(t: ListedTool, deny_all: bool, agent_deps: Option<Seq<Seq<char>>>) -> bool {
    &&& !deny_all
    &&& t.allowed
    &&& match agent_deps {
        Some(d) => d.contains(t.name@),
        None => true,
    }
}

/// The tools shown, as (index among the listed tools, name clients see), in order.
pub open spec fn shown_tools(
    tools: Seq<ListedTool>,
    deny_all: bool,
    agent_deps: Option<Seq<Seq<char>>>,
    has_default: bool,
) -> Seq<(int, Seq<char>)>
    decreases tools.len(),
{
    if tools.len() == 0 {
        Seq::empty()
    } else {
        let rest = shown_tools(tools.drop_last(), deny_all, agent_deps, has_default);
        let t = tools.last();
        if tool_shown(t, deny_all, agent_deps) {
            rest.push((tools.len() - 1, spec_resource_name(has_default, t.server@, t.name@)))
        } else {
            rest
        }
    }
}

/// The tools a caller is shown, with the names clients see them under.
pub fn expose_tools(
    tools: &Vec<ListedTool>,
    deny_all: bool,
    agent_deps: Option<&Vec<String>>,
    default_target_name: Option<&String>,
) -> (r: Vec<(usize, String)>)
    ensures
        r@.map_values(|p: (usize, String)| (p.0 as int, p.1@)) == shown_tools(
            tools@,
            deny_all,
            match agent_deps {
                Some(d) => Some(strings_view(d@)),
                None => None,
            },
            default_target_name is Some,
        ),
{
    let ghost deps = match agent_deps {
        Some(d) => Some(strings_view(d@)),
        None => None::<Seq<Seq<char>>>,
    };
    let ghost has_default = default_target_name is Some;
    let mut out: Vec<(usize, String)> = Vec::new();
    let mut i: usize = 0;
    while i < tools.len()
        invariant
            i <= tools@.len(),
            deps == match agent_deps {
                Some(d) => Some(strings_view(d@)),
                None => None,
            },
            has_default == default_target_name is Some,
            out@.map_values(|p: (usize, String)| (p.0 as int, p.1@)) == shown_tools(
                tools@.take(i as int),
                deny_all,
                deps,
                has_default,
            ),
        decreases tools@.len() - i,
    {
        let t = &tools[i];
        assert(tools@.take(i + 1).drop_last() =~= tools@.take(i as int));
        assert(tools@.take(i + 1).last() == *t);
        let in_deps = match agent_deps {
            Some(d) => contains_name(d, t.name.as_str()),
            None => true,
        };
        if !deny_all && t.allowed && in_deps {
            let name = resource_name(default_target_name, t.server.as_str(), t.name.as_str());
            let ghost prev = out@;
            let ghost entry = (i, name);
            out.push((i, name));
            assert(out@.map_values(|p: (usize, String)| (p.0 as int, p.1@)) =~= prev.map_values(
                |p: (usize, String)| (p.0 as int, p.1@),
            ).push((i as int, entry.1@)));
        }
        i = i + 1;
    }
    assert(tools@.take(tools@.len() as int) =~= tools@);
    out
}

/// The listed tools offered to a caller: each listing's backend and name, with
/// the authorization policies' answer for it, in order.
pub fn offered_tools(listings: &Vec<ToolListing>, allowed: &Vec<bool>) -> (r: Vec<ListedTool>)
    requires
        allowed@.len() == listings@.len(),
    ensures
        r@.len() == listings@.len(),
        forall|i: int|
            0 <= i < listings@.len() ==> (#[trigger] r@[i]).server@ == listings@[i].target@ && r@[i].name@
                == listings@[i].name@ && r@[i].allowed == allowed@[i],
{
    let mut out: Vec<ListedTool> = Vec::new();
    let mut i: usize = 0;
    while i < listings.len()
        invariant
            i <= listings@.len(),
            allowed@.len() == listings@.len(),
            out@.len() == i,
            forall|k: int|
                0 <= k < i ==> (#[trigger] out@[k]).server@ == listings@[k].target@ && out@[k].name@
                    == listings@[k].name@ && out@[k].allowed == allowed@[k],
        decreases listings@.len() - i,
    {
        out.push(
            ListedTool {
                server: listings[i].target.clone(),
                name: listings[i].name.clone(),
                allowed: allowed[i],
            },
        );
        i = i + 1;
    }
    out
}

/// A listing's entries as (index, name) pairs.
pub open spec fn indexed_names(r: Seq<(usize, String)>) -> Seq<(int, Seq<char>)> {
    r.map_values(|p: (usize, String)| (p.0 as int, p.1@))
}

/// The prompts a caller is shown: those the authorization policies allow, in
/// order, under the names clients see (as for tools, `resource_name`).
pub fn merge_prompts(prompts: &Vec<ListedTool>, default_target_name: Option<&String>) -> (r: Vec<(usize, String)>)
    ensures
        indexed_names(r@) == shown_tools(prompts@, false, None, default_target_name is Some),
{
    let r = expose_tools(prompts, false, None, default_target_name);
    assert(indexed_names(r@) =~= r@.map_values(|p: (usize, String)| (p.0 as int, p.1@)));
    r
}

/// The positions of the entries that the authorization policies allow, in order.
pub open spec fn allowed_indices(items: Seq<ListedTool>) -> Seq<usize>
    decreases items.len(),
{
    if items.len() == 0 {
        Seq::empty()
    } else {
        let rest = allowed_indices(items.drop_last());
        if items.last().allowed {
            rest.push((items.len() - 1) as usize)
        } else {
            rest
        }
    }
}

fn allowed_entries(items: &Vec<ListedTool>) -> (r: Vec<usize>)
    ensures
        r@ == allowed_indices(items@),
{
    let mut out: Vec<usize> = Vec::new();
    let mut i: usize = 0;
    while i < items.len()
        invariant
            i <= items@.len(),
            out@ == allowed_indices(items@.take(i as int)),
        decreases items@.len() - i,
    {
        assert(items@.take(i + 1).drop_last() =~= items@.take(i as int));
        assert(items@.take(i + 1).last() == items@[i as int]);
        if items[i].allowed {
            out.push(i);
        }
        i = i + 1;
    }
    assert(items@.take(items@.len() as int) =~= items@);
    out
}

/// The resources a caller is shown: those the authorization policies allow, in
/// order, under their own URIs.
pub fn merge_resources(resources: &Vec<ListedTool>) -> (r: Vec<usize>)
    ensures
        r@ == allowed_indices(resources@),
{
    allowed_entries(resources)
}

/// The resource templates a caller is shown: those the authorization policies
/// allow, in order, under their own URI templates.
pub fn merge_resource_templates(templates: &Vec<ListedTool>) -> (r: Vec<usize>)
    ensures
        r@ == allowed_indices(templates@),
{
    allowed_entries(templates)
}

// ---------------------------------------------------------------------------
// Resolving a tool call
// ---------------------------------------------------------------------------

/// Members after adding each default whose key is not there yet, in order.
pub open spec fn add_missing(
    members: Seq<(Seq<char>, JsonView)>,
    defaults: Seq<(Seq<char>, JsonView)>,
) -> Seq<(Seq<char>, JsonView)>
    decreases defaults.len(),
{
    if defaults.len() == 0 {
        members
    } else {
        let acc = add_missing(members, defaults.drop_last());
        let d = defaults.last();
        if find_key(acc, d.0) is Some {
            acc
        } else {
            acc.push(d)
        }
    }
}

/// Arguments with the defaults of a virtual tool filled in: unchanged when there
/// are no defaults; else the arguments must be an object, and each default whose
/// key is missing is added. `None` when the arguments are not an object.
pub open spec fn spec_inject_defaults(args: JsonView, defaults: Seq<(Seq<char>, JsonView)>) -> Option<JsonView> {
    if defaults.len() == 0 {
        Some(args)
    } else {
        match args {
            JsonView::Object(ms) => Some(JsonView::Object(add_missing(ms, defaults))),
            _ => None,
        }
    }
}

proof fn lemma_get_add_missing(ms: Seq<(Seq<char>, JsonView)>, ds: Seq<(Seq<char>, JsonView)>, k: Seq<char>)
    ensures
        spec_get(JsonView::Object(add_missing(ms, ds)), k) == match spec_get(JsonView::Object(ms), k) {
            Some(x) => Some(x),
            None => spec_get(JsonView::Object(ds), k),
        },
    decreases ds.len(),
{
    if ds.len() > 0 {
        let init = ds.drop_last();
        let d = ds.last();
        let acc = add_missing(ms, init);
        lemma_get_add_missing(ms, init, k);
        lemma_find_key(acc, d.0);
        lemma_find_key(acc, k);
        lemma_find_key(ds, k);
        lemma_find_key(init, k);
        assert forall|j: int| 0 <= j < init.len() implies init[j] == ds[j] by {}
        if find_key(acc, d.0) is None {
            let pushed = acc.push(d);
            lemma_find_key(pushed, k);
            assert forall|j: int| 0 <= j < acc.len() implies pushed[j] == acc[j] by {}
            if k == d.0 {
                lemma_find_key_at(pushed, k, acc.len() as int);
                if find_key(init, k) is Some {
                    let i = find_key(init, k)->0;
                    assert(ds[i].0 == k);
                }
                lemma_find_key_at(ds, k, ds.len() - 1);
            }
        }
    }
}

/// Defaults never override arguments: after the defaults of a virtual tool are
/// filled into object arguments, a key the arguments had keeps its value, a
/// missing key takes the value of its first default, and any other key stays
/// missing.
pub proof fn law_defaults_fill_only_missing(
    ms: Seq<(Seq<char>, JsonView)>,
    defaults: Seq<(Seq<char>, JsonView)>,
    key: Seq<char>,
)
    ensures
        spec_inject_defaults(JsonView::Object(ms), defaults) matches Some(v) && spec_get(v, key) == match spec_get(
            JsonView::Object(ms),
            key,
        ) {
            Some(x) => Some(x),
            None => spec_get(JsonView::Object(defaults), key),
        },
{
    lemma_get_add_missing(ms, defaults, key);
    if defaults.len() == 0 {
        lemma_find_key(defaults, key);
    }
}

/// Fills in the defaults of a virtual tool, using their values as given.
pub fn inject_defaults(args: JsonValue, defaults: &Vec<(String, JsonValue)>) -> (r: Result<JsonValue, RegistryError>)
    ensures
        match spec_inject_defaults(args@, members_view(defaults@)) {
            Some(v) => r matches Ok(x) && x@ == v,
            None => r matches Err(RegistryError::SchemaValidation(m)) && m@ == "arguments must be an object"@,
        },
{
    if defaults.len() == 0 {
        return Ok(args);
    }
    let mut members = match args {
        JsonValue::Object(m) => m,
        _ => {
            return Err(RegistryError::SchemaValidation("arguments must be an object".to_owned()));
        },
    };
    let ghost dv = members_view(defaults@);
    let ghost m0 = members_view(members@);
    let mut i: usize = 0;
    assert(dv.take(0) =~= Seq::<(Seq<char>, JsonView)>::empty());
    while i < defaults.len()
        invariant
            i <= defaults@.len(),
            dv == members_view(defaults@),
            members_view(members@) == add_missing(m0, dv.take(i as int)),
        decreases defaults@.len() - i,
    {
        assert(dv.take(i + 1).drop_last() =~= dv.take(i as int));
        assert(dv.take(i + 1).last() == dv[i as int]);
        match position_of_key(&members, defaults[i].0.as_str()) {
            Some(_) => {},
            None => {
                let k = defaults[i].0.clone();
                let v = defaults[i].1.duplicate();
                let ghost prev = members@;
                let ghost pair = (k, v);
                members.push((k, v));
                assert(members_view(members@) =~= members_view(prev).push((pair.0@, pair.1@)));
            },
        }
        i = i + 1;
    }
    assert(dv.take(defaults@.len() as int) =~= dv);
    Ok(JsonValue::Object(members))
}

/// The defaults with the values of those that will be filled in (their key is
/// neither among the arguments nor an earlier default's) resolved from the
/// looked-up environment variables; the first unset variable, in order, instead.
/// Arguments that are not an object take the defaults as given.
pub open spec fn spec_resolve_defaults(
    args: JsonView,
    defaults: Seq<(Seq<char>, JsonView)>,
    env: Seq<(String, Option<String>)>,
) -> Result<Seq<(Seq<char>, JsonView)>, Seq<char>>
    decreases defaults.len(),
{
    if defaults.len() == 0 {
        Ok(Seq::empty())
    } else {
        match spec_resolve_defaults(args, defaults.drop_last(), env) {
            Err(n) => Err(n),
            Ok(acc) => {
                let d = defaults.last();
                let filled = match args {
                    JsonView::Object(ms) => find_key(ms, d.0) is None && find_key(defaults.drop_last(), d.0) is None,
                    _ => false,
                };
                if filled {
                    match spec_resolve_env(d.1, env) {
                        Ok(v) => Ok(acc.push((d.0, v))),
                        Err(n) => Err(n),
                    }
                } else {
                    Ok(acc.push(d))
                }
            },
        }
    }
}

proof fn lemma_resolve_defaults_err_stays(
    args: JsonView,
    ds: Seq<(Seq<char>, JsonView)>,
    env: Seq<(String, Option<String>)>,
    k: int,
)
    requires
        0 < k <= ds.len(),
        spec_resolve_defaults(args, ds.take(k), env) is Err,
    ensures
        spec_resolve_defaults(args, ds, env) == spec_resolve_defaults(args, ds.take(k), env),
    decreases ds.len() - k,
{
    if k < ds.len() {
        assert(ds.take(k + 1).drop_last() =~= ds.take(k));
        lemma_resolve_defaults_err_stays(args, ds, env, k + 1);
    } else {
        assert(ds.take(k) =~= ds);
    }
}

/// Resolves the `${NAME}` references in the defaults that will be filled in (see
/// `spec_resolve_defaults`), from the looked-up environment variables `env`.
pub fn resolve_defaults(
    args: &JsonValue,
    defaults: &Vec<(String, JsonValue)>,
    env: &Vec<(String, Option<String>)>,
) -> (r: Result<Vec<(String, JsonValue)>, RegistryError>)
    ensures
        match spec_resolve_defaults(args@, members_view(defaults@), env@) {
            Ok(ds) => r matches Ok(v) && members_view(v@) == ds,
            Err(n) => r matches Err(RegistryError::EnvVarNotFound { name }) && name@ == n,
        },
{
    let ghost dv = members_view(defaults@);
    let mut out: Vec<(String, JsonValue)> = Vec::new();
    let mut i: usize = 0;
    assert(dv.take(0) =~= Seq::<(Seq<char>, JsonView)>::empty());
    assert(members_view(out@) =~= Seq::<(Seq<char>, JsonView)>::empty());
    while i < defaults.len()
        invariant
            i <= defaults@.len(),
            dv == members_view(defaults@),
            spec_resolve_defaults(args@, dv.take(i as int), env@) == Ok::<Seq<(Seq<char>, JsonView)>, Seq<char>>(
                members_view(out@),
            ),
        decreases defaults@.len() - i,
    {
        assert(dv.take(i + 1).drop_last() =~= dv.take(i as int));
        assert(dv.take(i + 1).last() == dv[i as int]);
        let key = defaults[i].0.as_str();
        let in_args = match args {
            JsonValue::Object(ms) => {
                proof {
                    crate::json::lemma_object_view(*ms);
                }
                Some(position_of_key(ms, key).is_some())
            },
            _ => None,
        };
        let mut earlier = false;
        let mut j: usize = 0;
        while j < i
            invariant
                j <= i < defaults@.len(),
                dv == members_view(defaults@),
                key@ == dv[i as int].0,
                earlier == (find_key(dv.take(j as int), dv[i as int].0) is Some),
            decreases i - j,
        {
            assert(dv.take(j + 1).drop_last() =~= dv.take(j as int));
            assert(dv.take(j + 1).last() == dv[j as int]);
            proof {
                crate::json::lemma_find_key(dv.take(j as int), dv[i as int].0);
                crate::json::lemma_find_key(dv.take(j + 1), dv[i as int].0);
            }
            if !earlier && str_eq(defaults[j].0.as_str(), key) {
                earlier = true;
            }
            j = j + 1;
        }
        let filled = match in_args {
            Some(present) => !present && !earlier,
            None => false,
        };
        if filled {
            match resolve_env_vars(&defaults[i].1, env) {
                Ok(v) => {
                    let ghost before = out@;
                    out.push((defaults[i].0.clone(), v));
                    assert(members_view(out@) =~= members_view(before).push((dv[i as int].0, v@)));
                },
                Err(e) => {
                    proof {
                        lemma_resolve_defaults_err_stays(args@, dv, env@, i as int + 1);
                    }
                    return Err(e);
                },
            }
        } else {
            let ghost before = out@;
            out.push((defaults[i].0.clone(), defaults[i].1.duplicate()));
            assert(members_view(out@) =~= members_view(before).push(dv[i as int]));
        }
        i = i + 1;
    }
    assert(dv.take(dv.len() as int) =~= dv);
    Ok(out)
}

/// Where a tool call goes.
#[derive(Debug)]
pub enum ResolvedToolCall {
    /// A composition of the registry, run by the gateway.
    Composition { name: String, args: JsonValue },
    /// A tool of a backend; `virtual_name` is the registry's name for it when
    /// the call named a virtual tool.
    Backend { target: String, tool_name: String, args: JsonValue, virtual_name: Option<String> },
}

/// The name after the first separator, or the whole name without one.
pub open spec fn base_name(s: Seq<char>) -> Seq<char> {
    if exists|i: int| 0 <= i < s.len() && s[i] == DELIMITER {
        let i = choose|i: int| 0 <= i < s.len() && s[i] == DELIMITER && forall|j: int| 0 <= j < i ==> s[j] != DELIMITER;
        s.skip(i + 1)
    } else {
        s
    }
}

/// The name under which a call finds a tool of the registry: the called name
/// itself, else its base name.
pub open spec fn registry_name(tools: Seq<ToolDefinition>, called: Seq<char>) -> Option<Seq<char>> {
    if tool_names(tools).contains(called) {
        Some(called)
    } else if tool_names(tools).contains(base_name(called)) {
        Some(base_name(called))
    } else {
        None
    }
}

/// The first tool of a name.
pub open spec fn tool_named(tools: Seq<ToolDefinition>, name: Seq<char>) -> ToolDefinition {
    tools[choose|i: int|
        0 <= i < tools.len() && tools[i].name@ == name && forall|j: int| 0 <= j < i ==> tools[j].name@ != name]
}

/// Index of the first separator of a name, and the name after it.
fn split_base(name: &str) -> (r: String)
    ensures
        r@ == base_name(name@),
{
    let chars = str_to_chars(name);
    let mut i: usize = 0;
    while i < chars.len()
        invariant
            i <= chars@.len(),
            chars@ == name@,
            forall|j: int| 0 <= j < i ==> chars@[j] != DELIMITER,
        decreases chars@.len() - i,
    {
        if chars[i] == DELIMITER {
            let ghost s = name@;
            proof {
                assert(s[i as int] == DELIMITER);
                let c = choose|c: int| 0 <= c < s.len() && s[c] == DELIMITER && forall|j: int| 0 <= j < c ==> s[j] != DELIMITER;
                if c < i {
                    assert(chars@[c] != DELIMITER);
                } else if c > i {
                    assert(s[i as int] != DELIMITER);
                }
            }
            return slice_to_string(&chars, i + 1, chars.len());
        }
        i = i + 1;
    }
    name.to_owned()
}

/// Index of the first tool named `name`, with its defining property.
proof fn lemma_tool_named(tools: Seq<ToolDefinition>, name: Seq<char>, i: int)
    requires
        0 <= i < tools.len(),
        tools[i].name@ == name,
        forall|j: int| 0 <= j < i ==> tools[j].name@ != name,
    ensures
        tool_named(tools, name) == tools[i],
{
    let c = choose|c: int|
        0 <= c < tools.len() && tools[c].name@ == name && forall|j: int| 0 <= j < c ==> tools[j].name@ != name;
    if c < i {
        assert(tools[c].name@ == name);
    } else if c > i {
        assert(tools[i].name@ != name);
    }
}

/// Finds the tool a called name denotes, as (index, registry name).
fn lookup_tool(tools: &Vec<ToolDefinition>, tool_name: &str) -> (r: Option<(usize, String)>)
    ensures
        match registry_name(tools@, tool_name@) {
            Some(rn) => r matches Some((i, n)) && n@ == rn && i < tools@.len() && tools@[i as int] == tool_named(tools@, rn),
            None => r is None,
        },
{
    match find_tool(tools, tool_name) {
        Some(i) => {
            proof {
                assert(tool_names(tools@)[i as int] == tool_name@);
                lemma_tool_named(tools@, tool_name@, i as int);
            }
            return Some((i, tool_name.to_owned()));
        },
        None => {},
    }
    proof {
        if tool_names(tools@).contains(tool_name@) {
            let k = choose|k: int| 0 <= k < tool_names(tools@).len() && tool_names(tools@)[k] == tool_name@;
            assert(tools@[k].name@ == tool_name@);
        }
    }
    let base = split_base(tool_name);
    match find_tool(tools, base.as_str()) {
        Some(i) => {
            proof {
                assert(tool_names(tools@)[i as int] == base@);
                lemma_tool_named(tools@, base@, i as int);
            }
            Some((i, base))
        },
        None => {
            proof {
                if tool_names(tools@).contains(base@) {
                    let k = choose|k: int| 0 <= k < tool_names(tools@).len() && tool_names(tools@)[k] == base@;
                    assert(tools@[k].name@ == base@);
                }
            }
            None
        },
    }
}

/// How a call of `called` is resolved, with the registry's tools when there is a
/// registry.
pub open spec fn resolution(
    tools: Option<Seq<ToolDefinition>>,
    default_target: Option<Seq<char>>,
    called: Seq<char>,
    args: JsonView,
    env: Seq<(String, Option<String>)>,
    r: Result<ResolvedToolCall, String>,
) -> bool {
    let found = match tools {
        Some(t) => registry_name(t, called),
        None => None,
    };
    match found {
        Some(rn) => {
            let t = tool_named(tools->0, rn);
            match t.implementation {
                ToolImplementation::Spec(_) => r matches Ok(ResolvedToolCall::Composition { name, args: a }) && name@
                    == rn && a@ == args,
                ToolImplementation::Source(src) => match spec_resolve_defaults(args, members_view(src.defaults@), env) {
                    Err(n) => r matches Err(m) && m@ == "environment variable '"@ + n + "' not found"@,
                    Ok(ds) => match spec_inject_defaults(args, ds) {
                        Some(v) => r matches Ok(ResolvedToolCall::Backend { target, tool_name, args: a, virtual_name })
                            && target@ == src.target@ && tool_name@ == src.tool@ && a@ == v && (
                        virtual_name matches Some(vn) && vn@ == rn),
                        None => r matches Err(m) && m@ == "schema validation error: arguments must be an object"@,
                    },
                },
            }
        },
        None => match default_target {
            Some(d) => r matches Ok(ResolvedToolCall::Backend { target, tool_name, args: a, virtual_name }) && target@
                == d && tool_name@ == called && a@ == args && virtual_name is None,
            None => match r {
                Ok(ResolvedToolCall::Backend { target, tool_name, args: a, virtual_name }) => exists|i: int|
                    0 <= i < called.len() && called[i] == DELIMITER && (forall|j: int|
                        0 <= j < i ==> called[j] != DELIMITER) && target@ == called.take(i) && tool_name@ == called.skip(
                        i + 1,
                    ) && a@ == args && virtual_name is None,
                Ok(_) => false,
                Err(m) => (forall|i: int| 0 <= i < called.len() ==> called[i] != DELIMITER) && m@
                    == "invalid resource name"@,
            },
        },
    }
}

/// Resolves where a call of `tool_name` goes: a composition or virtual tool of
/// the registry, looked up by the called name and then by its base name (the
/// part after the backend prefix); otherwise a backend tool named
/// `<backend>_<tool>`, or a tool of the default target. A virtual tool's
/// defaults fill in missing arguments, with their `${NAME}` references resolved
/// from the looked-up environment variables `env`.
pub fn resolve_tool_call(
    registry: Option<&Registry>,
    default_target_name: Option<&String>,
    tool_name: &str,
    args: JsonValue,
    env: &Vec<(String, Option<String>)>,
) -> (r: Result<ResolvedToolCall, String>)
    ensures
        resolution(
            match registry {
                Some(g) => Some(g.tools@),
                None => None,
            },
            match default_target_name {
                Some(d) => Some(d@),
                None => None,
            },
            tool_name@,
            args@,
            env@,
            r,
        ),
{
    let ghost av = args@;
    match registry {
        Some(reg) => match lookup_tool(&reg.tools, tool_name) {
            Some((i, rn)) => {
                let tool = &reg.tools[i];
                return match &tool.implementation {
                    ToolImplementation::Spec(_) => Ok(ResolvedToolCall::Composition { name: rn, args }),
                    ToolImplementation::Source(src) => match resolve_defaults(&args, &src.defaults, env) {
                        Err(e) => {
                            let name = match e {
                                RegistryError::EnvVarNotFound { name } => name,
                                _ => String::new(),
                            };
                            let head = concat_str("environment variable '", name.as_str());
                            Err(concat_str(head.as_str(), "' not found"))
                        },
                        Ok(ds) => match inject_defaults(args, &ds) {
                            Ok(a) => Ok(
                                ResolvedToolCall::Backend {
                                    target: src.target.clone(),
                                    tool_name: src.tool.clone(),
                                    args: a,
                                    virtual_name: Some(rn),
                                },
                            ),
                            Err(_) => Err("schema validation error: arguments must be an object".to_owned()),
                        },
                    },
                };
            },
            None => {},
        },
        None => {},
    }
    match parse_resource_name(default_target_name, tool_name) {
        Ok((target, name)) => Ok(ResolvedToolCall::Backend { target, tool_name: name, args, virtual_name: None }),
        Err(m) => Err(m),
    }
}

/// Without a default target, the name a backend's tool is listed under splits back
/// into that backend and tool, when the backend's name has no separator.
pub proof fn law_resource_name_round_trip(target: Seq<char>, name: Seq<char>)
    requires
        target != COMPOSITION_TARGET@,
        forall|i: int| 0 <= i < target.len() ==> target[i] != DELIMITER,
    ensures
        ({
            let r = spec_resource_name(false, target, name);
            &&& exists|i: int| 0 <= i < r.len() && r[i] == DELIMITER
            &&& forall|i: int|
                0 <= i < r.len() && r[i] == DELIMITER && (forall|j: int| 0 <= j < i ==> r[j] != DELIMITER) ==> r.take(i)
                    == target && r.skip(i + 1) == name
        }),
{
    let r = spec_resource_name(false, target, name);
    let t = target.len() as int;
    assert(r == target + seq![DELIMITER] + name);
    assert(r[t] == DELIMITER);
    assert forall|i: int|
        0 <= i < r.len() && r[i] == DELIMITER && (forall|j: int| 0 <= j < i ==> r[j] != DELIMITER) implies r.take(i)
            == target && r.skip(i + 1) == name by {
        if i < t {
            assert(r[i] == target[i]);
        } else if i > t {
            assert(r[t] == DELIMITER);
        }
        assert(r.take(t) =~= target);
        assert(r.skip(t + 1) =~= name);
    }
}

} // verus!

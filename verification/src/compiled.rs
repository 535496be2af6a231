//! The compiled registry: tool definitions indexed by name, ready for calls and
//! for listing tools to agents.
use vstd::prelude::*;
use crate::json::{JsonValue, JsonView, members_view, items_view, find_key, position_of_key, group_json_view};
use crate::registry::{Registry, SourceTool, ToolDefinition, ToolImplementation, find_tool, tool_names};
use crate::registry_error::RegistryError;
use crate::relay::{inject_defaults, spec_inject_defaults};
use crate::schema_map::{replace_all, replace_all_exec};
use crate::text::{strings_view, contains_name, str_eq, str_to_chars, slice_to_string, concat_str};
use crate::tool_result::{json_from_text, parsed_json};
use crate::transform::{FieldSource, apply_output_transform, check_output_paths, mappings_error, spec_transform};

verus! {

broadcast use group_json_view;

/// Whether the tool at `j` has the name of an earlier tool.
pub open spec fn repeats_earlier(tools: Seq<ToolDefinition>, j: int) -> bool {
    exists|i: int| 0 <= i < j && tools[i].name@ == tools[j].name@
}

/// Whether no two tools share a name.
pub open spec fn unique_names(tools: Seq<ToolDefinition>) -> bool {
    forall|i: int, j: int| 0 <= i < j < tools.len() ==> tools[i].name@ != tools[j].name@
}

/// The source of a virtual tool, as (backend, tool).
pub open spec fn source_key(t: ToolDefinition) -> Option<(Seq<char>, Seq<char>)> {
    match t.implementation {
        ToolImplementation::Source(s) => Some((s.target@, s.tool@)),
        ToolImplementation::Spec(_) => None,
    }
}

/// Names of the virtual tools whose source is `tool` of `target`, in registry order.
pub open spec fn virtual_names(tools: Seq<ToolDefinition>, target: Seq<char>, tool: Seq<char>) -> Seq<Seq<char>>
    decreases tools.len(),
{
    if tools.len() == 0 {
        Seq::empty()
    } else {
        let rest = virtual_names(tools.drop_last(), target, tool);
        if source_key(tools.last()) == Some((target, tool)) {
            rest.push(tools.last().name@)
        } else {
            rest
        }
    }
}

/// The tool named `name`, when there is one.
pub open spec fn named(tools: Seq<ToolDefinition>, name: Seq<char>) -> Option<ToolDefinition> {
    if exists|i: int| 0 <= i < tools.len() && tools[i].name@ == name {
        Some(tools[choose|i: int| 0 <= i < tools.len() && tools[i].name@ == name])
    } else {
        None
    }
}

/// With distinct names, the tool named `name` is the one at any index bearing it.
proof fn lemma_named_at(tools: Seq<ToolDefinition>, name: Seq<char>, k: int)
    requires
        unique_names(tools),
        0 <= k < tools.len(),
        tools[k].name@ == name,
    ensures
        named(tools, name) == Some(tools[k]),
{
    let c = choose|i: int| 0 <= i < tools.len() && tools[i].name@ == name;
    if c < k {
        assert(tools[c].name@ != tools[k].name@);
    } else if c > k {
        assert(tools[k].name@ != tools[c].name@);
    }
}

/// The value of the first candidate text that is JSON.
pub open spec fn first_parsed(cands: Seq<Seq<char>>) -> Option<JsonView>
    decreases cands.len(),
{
    if cands.len() == 0 {
        None
    } else {
        match parsed_json(cands[0]) {
            Some(v) => Some(v),
            None => first_parsed(cands.drop_first()),
        }
    }
}

/// The JSON a backend's answer holds: a string is read as JSON, or else the JSON
/// object or array embedded in it (the object first), or else kept; any other
/// value is kept.
pub open spec fn spec_extract_json(response: JsonView) -> JsonView {
    match response {
        JsonView::String(s) => match parsed_json(s) {
            Some(v) => v,
            None => match first_parsed(bracketed(s, '{', '}') + bracketed(s, '[', ']')) {
                Some(v) => v,
                None => response,
            },
        },
        _ => response,
    }
}

/// The JSON a backend's answer holds (see `spec_extract_json`).
pub fn extract_json_from_response(response: &JsonValue) -> (r: JsonValue)
    ensures
        r@ == spec_extract_json(response@),
{
    match response {
        JsonValue::String(s) => {
            match json_from_text(s.as_str()) {
                Some(v) => {
                    return v;
                },
                None => {},
            }
            let cands = json_candidates(s.as_str());
            let ghost cv = strings_view(cands@);
            let mut i: usize = 0;
            assert(cv.skip(0) =~= cv);
            while i < cands.len()
                invariant
                    i <= cands@.len(),
                    cv == strings_view(cands@),
                    cv == bracketed(s@, '{', '}') + bracketed(s@, '[', ']'),
                    *response == JsonValue::String(*s),
                    parsed_json(s@) is None,
                    first_parsed(cv) == first_parsed(cv.skip(i as int)),
                decreases cands@.len() - i,
            {
                assert(cv.skip(i as int)[0] == cands@[i as int]@);
                assert(cv.skip(i as int).drop_first() =~= cv.skip(i + 1));
                match json_from_text(cands[i].as_str()) {
                    Some(v) => {
                        return v;
                    },
                    None => {},
                }
                i = i + 1;
            }
            response.duplicate()
        },
        _ => response.duplicate(),
    }
}

/// The first path of the tools' output transforms, tool after tool, that is not a
/// JSONPath, with its parse error.
pub open spec fn transforms_error(tools: Seq<ToolDefinition>) -> Option<(Seq<char>, Seq<char>)>
    decreases tools.len(),
{
    if tools.len() == 0 {
        None
    } else {
        match transforms_error(tools.drop_last()) {
            Some(e) => Some(e),
            None => match tools.last().output_transform {
                Some(ms) => mappings_error(ms@),
                None => None,
            },
        }
    }
}

proof fn lemma_transforms_error_stays(tools: Seq<ToolDefinition>, k: int)
    requires
        0 < k <= tools.len(),
        transforms_error(tools.take(k)) is Some,
    ensures
        transforms_error(tools) == transforms_error(tools.take(k)),
    decreases tools.len() - k,
{
    if k < tools.len() {
        assert(tools.take(k + 1).drop_last() =~= tools.take(k));
        lemma_transforms_error_stays(tools, k + 1);
    } else {
        assert(tools.take(k) =~= tools);
    }
}

/// A registry whose tools have distinct names.
pub struct CompiledRegistry {
    tools: Vec<ToolDefinition>,
}

impl CompiledRegistry {
    #[verifier::type_invariant]
    spec fn inv(self) -> bool {
        unique_names(self.tools@)
    }

    /// The tool definitions, in registry order.
    pub closed spec fn tools_view(&self) -> Seq<ToolDefinition> {
        self.tools@
    }

    /// Compiles a registry. Two tools of one name are a `DuplicateToolName` error
    /// naming the first tool whose name was already taken; otherwise a path of an
    /// output transform that is not a JSONPath is an `InvalidJsonPath` error (the
    /// first, tool after tool).
    pub fn compile(registry: Registry) -> (r: Result<CompiledRegistry, RegistryError>)
        ensures
            !unique_names(registry.tools@) ==> (r matches Err(e) && exists|j: int|
                #![trigger registry.tools@[j]]
                0 <= j < registry.tools@.len() && repeats_earlier(registry.tools@, j) && (forall|k: int|
                    0 <= k < j ==> !repeats_earlier(registry.tools@, k)) && e
                    == RegistryError::DuplicateToolName(registry.tools@[j].name)),
            unique_names(registry.tools@) ==> match transforms_error(registry.tools@) {
                Some((p, m)) => r matches Err(RegistryError::InvalidJsonPath { path, message }) && path@ == p
                    && message@ == m,
                None => r matches Ok(c) && c.tools_view() == registry.tools@,
            },
    {
        let ghost rt = registry.tools@;
        let tools = registry.tools;
        let mut j: usize = 0;
        while j < tools.len()
            invariant
                j <= tools@.len(),
                rt == tools@,
                rt == registry.tools@,
                forall|k: int| 0 <= k < j ==> !repeats_earlier(tools@, k),
                forall|a: int, b: int| 0 <= a < b < j ==> tools@[a].name@ != tools@[b].name@,
            decreases tools@.len() - j,
        {
            match find_tool(&tools, tools[j].name.as_str()) {
                Some(i) => {
                    if i < j {
                        assert(tools@[i as int].name@ == tools@[j as int].name@);
                        assert(repeats_earlier(tools@, j as int));
                        let name = tools[j].name.clone();
                        assert(name == rt[j as int].name);
                        return Err(RegistryError::DuplicateToolName(name));
                    }
                },
                None => {},
            }
            j = j + 1;
        }
        let mut k: usize = 0;
        assert(rt.take(0) =~= Seq::<ToolDefinition>::empty());
        while k < tools.len()
            invariant
                k <= tools@.len(),
                rt == tools@,
                rt == registry.tools@,
                unique_names(rt),
                transforms_error(rt.take(k as int)) is None,
            decreases tools@.len() - k,
        {
            assert(rt.take(k + 1).drop_last() =~= rt.take(k as int));
            assert(rt.take(k + 1).last() == rt[k as int]);
            match &tools[k].output_transform {
                Some(ms) => match check_output_paths(ms) {
                    Err(e) => {
                        proof {
                            lemma_transforms_error_stays(rt, k as int + 1);
                        }
                        return Err(e);
                    },
                    Ok(()) => {},
                },
                None => {},
            }
            k = k + 1;
        }
        assert(rt.take(rt.len() as int) =~= rt);
        Ok(CompiledRegistry { tools })
    }

    /// A compiled registry without tools.
    pub fn empty() -> (c: CompiledRegistry)
        ensures
            c.tools_view().len() == 0,
    {
        CompiledRegistry { tools: Vec::new() }
    }

    /// The tool named `name`.
    pub fn get_tool(&self, name: &str) -> (r: Option<&ToolDefinition>)
        ensures
            match r {
                Some(t) => named(self.tools_view(), name@) == Some(*t),
                None => named(self.tools_view(), name@) is None,
            },
    {
        proof {
            use_type_invariant(self);
        }
        match find_tool(&self.tools, name) {
            Some(i) => {
                proof {
                    lemma_named_at(self.tools@, name@, i as int);
                }
                Some(&self.tools[i])
            },
            None => None,
        }
    }

    /// A virtual tool's answer rewritten by its output transform (see
    /// `spec_transform`), read from the JSON the answer holds; the answer as it is
    /// for a tool without one. An unknown name is `ToolNotFound`; a path of the
    /// transform that is not a JSONPath is `InvalidJsonPath`.
    pub fn transform_output(&self, virtual_name: &str, response: &JsonValue) -> (r: Result<JsonValue, RegistryError>)
        ensures
            match named(self.tools_view(), virtual_name@) {
                None => r matches Err(RegistryError::ToolNotFound { name }) && name@ == virtual_name@,
                Some(t) => match t.output_transform {
                    None => r matches Ok(v) && v@ == response@,
                    Some(ms) => match mappings_error(ms@) {
                        Some((p, m)) => r matches Err(RegistryError::InvalidJsonPath { path, message }) && path@ == p
                            && message@ == m,
                        None => r matches Ok(v) && v@ == JsonView::Object(
                            spec_transform(ms@, spec_extract_json(response@)),
                        ),
                    },
                },
            },
    {
        match self.get_tool(virtual_name) {
            None => Err(RegistryError::tool_not_found(virtual_name.to_owned())),
            Some(t) => match &t.output_transform {
                None => Ok(response.duplicate()),
                Some(ms) => {
                    let json = extract_json_from_response(response);
                    apply_output_transform(ms, &json)
                },
            },
        }
    }

    /// Whether `name` is a composition.
    pub fn is_composition(&self, name: &str) -> (r: bool)
        ensures
            r == (named(self.tools_view(), name@) matches Some(t) && t.implementation is Spec),
    {
        match self.get_tool(name) {
            Some(t) => t.is_composition(),
            None => false,
        }
    }

    /// Whether `name` is a virtual tool.
    pub fn is_source_tool(&self, name: &str) -> (r: bool)
        ensures
            r == (named(self.tools_view(), name@) matches Some(t) && t.implementation is Source),
    {
        match self.get_tool(name) {
            Some(t) => t.is_source(),
            None => false,
        }
    }

    /// Number of tools.
    pub fn len(&self) -> (r: usize)
        ensures
            r == self.tools_view().len(),
    {
        self.tools.len()
    }

    /// Whether there are no tools.
    pub fn is_empty(&self) -> (r: bool)
        ensures
            r == (self.tools_view().len() == 0),
    {
        self.tools.len() == 0
    }

    /// The names of all tools, in registry order.
    pub fn tool_names(&self) -> (r: Vec<String>)
        ensures
            strings_view(r@) == tool_names(self.tools_view()),
    {
        let mut out: Vec<String> = Vec::new();
        let mut i: usize = 0;
        while i < self.tools.len()
            invariant
                i <= self.tools@.len(),
                strings_view(out@) == tool_names(self.tools@).take(i as int),
            decreases self.tools@.len() - i,
        {
            let ghost before = out@;
            out.push(self.tools[i].name.clone());
            assert(strings_view(out@) =~= strings_view(before).push(self.tools@[i as int].name@));
            assert(strings_view(out@) =~= tool_names(self.tools@).take(i + 1));
            i = i + 1;
        }
        assert(tool_names(self.tools@).take(self.tools@.len() as int) =~= tool_names(self.tools@));
        out
    }

    /// The names of the virtual tools whose source is `tool` of `target`, in
    /// registry order; `None` when there are none.
    pub fn get_virtual_names(&self, target: &str, tool: &str) -> (r: Option<Vec<String>>)
        ensures
            match r {
                Some(v) => strings_view(v@) == virtual_names(self.tools_view(), target@, tool@) && v@.len() > 0,
                None => virtual_names(self.tools_view(), target@, tool@).len() == 0,
            },
    {
        let mut out: Vec<String> = Vec::new();
        let mut i: usize = 0;
        while i < self.tools.len()
            invariant
                i <= self.tools@.len(),
                strings_view(out@) == virtual_names(self.tools@.take(i as int), target@, tool@),
            decreases self.tools@.len() - i,
        {
            assert(self.tools@.take(i + 1).drop_last() =~= self.tools@.take(i as int));
            assert(self.tools@.take(i + 1).last() == self.tools@[i as int]);
            match &self.tools[i].implementation {
                ToolImplementation::Source(s) => {
                    if str_eq(s.target.as_str(), target) && str_eq(s.tool.as_str(), tool) {
                        out.push(self.tools[i].name.clone());
                        assert(strings_view(out@) =~= virtual_names(self.tools@.take(i + 1), target@, tool@));
                    }
                },
                ToolImplementation::Spec(_) => {},
            }
            i = i + 1;
        }
        assert(self.tools@.take(self.tools@.len() as int) =~= self.tools@);
        if out.len() == 0 {
            None
        } else {
            Some(out)
        }
    }

    /// Whether some virtual tool has `tool` of `target` as its source.
    pub fn is_virtualized(&self, target: &str, tool: &str) -> (r: bool)
        ensures
            r == (virtual_names(self.tools_view(), target@, tool@).len() > 0),
    {
        self.get_virtual_names(target, tool).is_some()
    }

    /// The backend call for a virtual tool: its backend, its tool there, and the
    /// arguments with its defaults filled in. An unknown name is `ToolNotFound`; a
    /// composition needs the executor (`CompositionRequiresExecutor`); arguments
    /// that are not an object, when there are defaults, fail `SchemaValidation`.
    pub fn prepare_call_args(&self, virtual_name: &str, args: JsonValue) -> (r: Result<
        (String, String, JsonValue),
        RegistryError,
    >)
        ensures
            match named(self.tools_view(), virtual_name@) {
                None => r matches Err(RegistryError::ToolNotFound { name }) && name@ == virtual_name@,
                Some(t) => match t.implementation {
                    ToolImplementation::Spec(_) => r matches Err(RegistryError::CompositionRequiresExecutor(n))
                        && n@ == virtual_name@,
                    ToolImplementation::Source(s) => match spec_inject_defaults(args@, members_view(s.defaults@)) {
                        Some(v) => r matches Ok((tg, n, a)) && tg@ == s.target@ && n@ == s.tool@ && a@ == v,
                        None => r matches Err(RegistryError::SchemaValidation(m)) && m@
                            == "arguments must be an object"@,
                    },
                },
            },
    {
        match self.get_tool(virtual_name) {
            None => Err(RegistryError::ToolNotFound { name: virtual_name.to_owned() }),
            Some(tool) => match &tool.implementation {
                ToolImplementation::Source(s) => {
                    let target = s.target.clone();
                    let tool_name = s.tool.clone();
                    match inject_defaults(args, &s.defaults) {
                        Ok(a) => Ok((target, tool_name, a)),
                        Err(e) => Err(e),
                    }
                },
                ToolImplementation::Spec(_) => Err(RegistryError::CompositionRequiresExecutor(virtual_name.to_owned())),
            },
        }
    }
}

// ---------------------------------------------------------------------------
// Listing tools
// ---------------------------------------------------------------------------

/// Members without those whose key is hidden.
pub open spec fn without_keys(ms: Seq<(Seq<char>, JsonView)>, hide: Seq<Seq<char>>) -> Seq<(Seq<char>, JsonView)>
    decreases ms.len(),
{
    if ms.len() == 0 {
        ms
    } else {
        let rest = without_keys(ms.drop_last(), hide);
        if hide.contains(ms.last().0) {
            rest
        } else {
            rest.push(ms.last())
        }
    }
}

/// Items without the strings that are hidden.
pub open spec fn without_hidden(items: Seq<JsonView>, hide: Seq<Seq<char>>) -> Seq<JsonView>
    decreases items.len(),
{
    if items.len() == 0 {
        items
    } else {
        let rest = without_hidden(items.drop_last(), hide);
        if items.last() matches JsonView::String(x) && hide.contains(x) {
            rest
        } else {
            rest.push(items.last())
        }
    }
}

/// A schema whose `properties` object no longer has the hidden fields.
pub open spec fn strip_properties(ms: Seq<(Seq<char>, JsonView)>, hide: Seq<Seq<char>>) -> Seq<(Seq<char>, JsonView)> {
    match find_key(ms, "properties"@) {
        Some(i) => match ms[i].1 {
            JsonView::Object(ps) => ms.update(i, (ms[i].0, JsonView::Object(without_keys(ps, hide)))),
            _ => ms,
        },
        None => ms,
    }
}

/// A schema whose `required` array no longer names the hidden fields.
pub open spec fn strip_required(ms: Seq<(Seq<char>, JsonView)>, hide: Seq<Seq<char>>) -> Seq<(Seq<char>, JsonView)> {
    match find_key(ms, "required"@) {
        Some(i) => match ms[i].1 {
            JsonView::Array(xs) => ms.update(i, (ms[i].0, JsonView::Array(without_hidden(xs, hide)))),
            _ => ms,
        },
        None => ms,
    }
}

/// The input schema of a virtual tool: its own schema when it gives an object,
/// else the source tool's schema without the hidden fields.
pub open spec fn spec_effective_schema(
    own: Option<JsonView>,
    source: Seq<(Seq<char>, JsonView)>,
    hide: Seq<Seq<char>>,
) -> Seq<(Seq<char>, JsonView)> {
    match own {
        Some(JsonView::Object(ms)) => ms,
        _ => if hide.len() == 0 {
            source
        } else {
            strip_required(strip_properties(source, hide), hide)
        },
    }
}

/// A copy of some members.
fn copy_members(ms: &Vec<(String, JsonValue)>) -> (r: Vec<(String, JsonValue)>)
    ensures
        members_view(r@) == members_view(ms@),
{
    let mut out: Vec<(String, JsonValue)> = Vec::new();
    let mut i: usize = 0;
    while i < ms.len()
        invariant
            i <= ms@.len(),
            members_view(out@) == members_view(ms@).take(i as int),
        decreases ms@.len() - i,
    {
        let ghost before = out@;
        let k = ms[i].0.clone();
        let v = ms[i].1.duplicate();
        out.push((k, v));
        assert(members_view(out@) =~= members_view(before).push(members_view(ms@)[i as int]));
        assert(members_view(out@) =~= members_view(ms@).take(i + 1));
        i = i + 1;
    }
    assert(members_view(ms@).take(ms@.len() as int) =~= members_view(ms@));
    out
}

fn keep_unhidden_keys(ms: &Vec<(String, JsonValue)>, hide: &Vec<String>) -> (r: Vec<(String, JsonValue)>)
    ensures
        members_view(r@) == without_keys(members_view(ms@), strings_view(hide@)),
{
    let ghost mv = members_view(ms@);
    let ghost hv = strings_view(hide@);
    let mut out: Vec<(String, JsonValue)> = Vec::new();
    let mut i: usize = 0;
    assert(mv.take(0) =~= Seq::<(Seq<char>, JsonView)>::empty());
    assert(members_view(out@) =~= Seq::<(Seq<char>, JsonView)>::empty());
    while i < ms.len()
        invariant
            i <= ms@.len(),
            mv == members_view(ms@),
            hv == strings_view(hide@),
            members_view(out@) == without_keys(mv.take(i as int), hv),
        decreases ms@.len() - i,
    {
        assert(mv.take(i + 1).drop_last() =~= mv.take(i as int));
        assert(mv.take(i + 1).last() == mv[i as int]);
        if !contains_name(hide, ms[i].0.as_str()) {
            let ghost before = out@;
            out.push((ms[i].0.clone(), ms[i].1.duplicate()));
            assert(members_view(out@) =~= members_view(before).push(mv[i as int]));
        }
        i = i + 1;
    }
    assert(mv.take(ms@.len() as int) =~= mv);
    out
}

fn keep_unhidden_items(items: &Vec<JsonValue>, hide: &Vec<String>) -> (r: Vec<JsonValue>)
    ensures
        items_view(r@) == without_hidden(items_view(items@), strings_view(hide@)),
{
    let ghost iv = items_view(items@);
    let ghost hv = strings_view(hide@);
    let mut out: Vec<JsonValue> = Vec::new();
    let mut i: usize = 0;
    assert(iv.take(0) =~= Seq::<JsonView>::empty());
    assert(items_view(out@) =~= Seq::<JsonView>::empty());
    while i < items.len()
        invariant
            i <= items@.len(),
            iv == items_view(items@),
            hv == strings_view(hide@),
            items_view(out@) == without_hidden(iv.take(i as int), hv),
        decreases items@.len() - i,
    {
        assert(iv.take(i + 1).drop_last() =~= iv.take(i as int));
        assert(iv.take(i + 1).last() == iv[i as int]);
        let hidden = match &items[i] {
            JsonValue::String(x) => contains_name(hide, x.as_str()),
            _ => false,
        };
        if !hidden {
            let ghost before = out@;
            out.push(items[i].duplicate());
            assert(items_view(out@) =~= items_view(before).push(iv[i as int]));
        }
        i = i + 1;
    }
    assert(iv.take(items@.len() as int) =~= iv);
    out
}

/// The input schema a virtual tool is listed with: its own input schema when that
/// is an object; otherwise the source tool's schema, with the hidden fields taken
/// out of `properties` and of `required`.
pub fn effective_schema(own: &Option<JsonValue>, source: &Vec<(String, JsonValue)>, hide: &Vec<String>) -> (r: Vec<
    (String, JsonValue),
>)
    ensures
        members_view(r@) == spec_effective_schema(
            match own {
                Some(v) => Some(v@),
                None => None,
            },
            members_view(source@),
            strings_view(hide@),
        ),
{
    match own {
        Some(JsonValue::Object(ms)) => {
            return copy_members(ms);
        },
        _ => {},
    }
    let mut schema = copy_members(source);
    if hide.len() == 0 {
        return schema;
    }
    let ghost hv = strings_view(hide@);
    let ghost s0 = members_view(schema@);
    match position_of_key(&schema, "properties") {
        Some(i) => {
            let stripped = match &schema[i].1 {
                JsonValue::Object(ps) => Some(keep_unhidden_keys(ps, hide)),
                _ => None,
            };
            match stripped {
                Some(ps) => {
                    let key = schema[i].0.clone();
                    schema.set(i, (key, JsonValue::Object(ps)));
                    assert(members_view(schema@) =~= strip_properties(s0, hv));
                },
                None => {},
            }
        },
        None => {},
    }
    let ghost s1 = members_view(schema@);
    assert(s1 == strip_properties(s0, hv));
    match position_of_key(&schema, "required") {
        Some(i) => {
            let stripped = match &schema[i].1 {
                JsonValue::Array(xs) => Some(keep_unhidden_items(xs, hide)),
                _ => None,
            };
            match stripped {
                Some(xs) => {
                    let key = schema[i].0.clone();
                    schema.set(i, (key, JsonValue::Array(xs)));
                    assert(members_view(schema@) =~= strip_required(s1, hv));
                },
                None => {},
            }
        },
        None => {},
    }
    schema
}

/// A tool that a backend lists, as far as listing reads it.
#[derive(Debug, PartialEq)]
pub struct BackendTool {
    /// The backend that lists it.
    pub target: String,
    /// Its name there.
    pub name: String,
    pub description: Option<String>,
    /// Its input schema (a JSON object's members).
    pub input_schema: Vec<(String, JsonValue)>,
    /// Its output schema, if any.
    pub output_schema: Option<Vec<(String, JsonValue)>>,
}

/// Where a listed tool comes from.
#[derive(Debug, Clone, Copy, PartialEq, Eq, Structural)]
pub enum ListingOrigin {
    /// A virtual tool over the backend tool at this index.
    Virtual { backend_index: usize },
    /// The backend tool at this index, unchanged.
    Passthrough { backend_index: usize },
    /// A composition of the registry.
    Composition,
}

/// A tool as listed to agents.
#[derive(Debug, PartialEq)]
pub struct ToolListing {
    /// The backend it belongs to (`_composition` for compositions).
    pub target: String,
    pub name: String,
    pub description: Option<String>,
    pub input_schema: Vec<(String, JsonValue)>,
    pub output_schema: Option<Vec<(String, JsonValue)>>,
    pub origin: ListingOrigin,
}

/// Mathematical view of a listed tool.
pub struct ListingView {
    pub target: Seq<char>,
    pub name: Seq<char>,
    pub description: Option<Seq<char>>,
    pub input_schema: Seq<(Seq<char>, JsonView)>,
    pub output_schema: Option<Seq<(Seq<char>, JsonView)>>,
    pub origin: ListingOrigin,
}

pub open spec fn opt_text(o: Option<String>) -> Option<Seq<char>> {
    match o {
        Some(x) => Some(x@),
        None => None,
    }
}

pub open spec fn opt_members(o: Option<Vec<(String, JsonValue)>>) -> Option<Seq<(Seq<char>, JsonView)>> {
    match o {
        Some(x) => Some(members_view(x@)),
        None => None,
    }
}

pub open spec fn opt_json(o: Option<JsonValue>) -> Option<JsonView> {
    match o {
        Some(x) => Some(x@),
        None => None,
    }
}

/// The members of a JSON object, when the value is one.
pub open spec fn object_members(o: Option<JsonView>) -> Option<Seq<(Seq<char>, JsonView)>> {
    match o {
        Some(JsonView::Object(ms)) => Some(ms),
        _ => None,
    }
}

pub open spec fn listing_view(l: ToolListing) -> ListingView {
    ListingView {
        target: l.target@,
        name: l.name@,
        description: opt_text(l.description),
        input_schema: members_view(l.input_schema@),
        output_schema: opt_members(l.output_schema),
        origin: l.origin,
    }
}

pub open spec fn listings_view(ls: Seq<ToolListing>) -> Seq<ListingView> {
    ls.map_values(|l: ToolListing| listing_view(l))
}

/// Index of the first backend tool that `target` lists as `tool`.
pub open spec fn first_backend(b: Seq<BackendTool>, target: Seq<char>, tool: Seq<char>) -> Option<int>
    decreases b.len(),
{
    if b.len() == 0 {
        None
    } else {
        match first_backend(b.drop_last(), target, tool) {
            Some(i) => Some(i),
            None => if b.last().target@ == target && b.last().name@ == tool {
                Some(b.len() - 1)
            } else {
                None
            },
        }
    }
}

/// The listing of virtual tool `t` over backend tool `b` (at index `bi`): the
/// virtual tool's name; its description, else the backend tool's; its effective
/// input schema; its output schema when that is an object, else the backend tool's.
pub open spec fn virtual_listing(t: ToolDefinition, src: SourceTool, b: BackendTool, bi: int) -> ListingView {
    ListingView {
        target: b.target@,
        name: t.name@,
        description: match t.description {
            Some(d) => Some(d@),
            None => opt_text(b.description),
        },
        input_schema: spec_effective_schema(opt_json(t.input_schema), members_view(b.input_schema@), strings_view(src.hide_fields@)),
        output_schema: match object_members(opt_json(t.output_schema)) {
            Some(ms) => Some(ms),
            None => opt_members(b.output_schema),
        },
        origin: ListingOrigin::Virtual { backend_index: bi as usize },
    }
}

/// The virtual tools whose source some backend lists, in registry order.
pub open spec fn virtual_part(tools: Seq<ToolDefinition>, b: Seq<BackendTool>) -> Seq<ListingView>
    decreases tools.len(),
{
    if tools.len() == 0 {
        Seq::empty()
    } else {
        let rest = virtual_part(tools.drop_last(), b);
        let t = tools.last();
        match t.implementation {
            ToolImplementation::Source(src) => match first_backend(b, src.target@, src.tool@) {
                Some(bi) => rest.push(virtual_listing(t, src, b[bi], bi)),
                None => rest,
            },
            ToolImplementation::Spec(_) => rest,
        }
    }
}

/// The backend tools among the first `k` that no virtual tool replaces, unchanged.
pub open spec fn pass_part(tools: Seq<ToolDefinition>, b: Seq<BackendTool>, k: int) -> Seq<ListingView>
    decreases k,
{
    if k <= 0 {
        Seq::empty()
    } else {
        let rest = pass_part(tools, b, k - 1);
        let x = b[k - 1];
        if virtual_names(tools, x.target@, x.name@).len() > 0 {
            rest
        } else {
            rest.push(
                ListingView {
                    target: x.target@,
                    name: x.name@,
                    description: opt_text(x.description),
                    input_schema: members_view(x.input_schema@),
                    output_schema: opt_members(x.output_schema),
                    origin: ListingOrigin::Passthrough { backend_index: (k - 1) as usize },
                },
            )
        }
    }
}

/// The compositions, in registry order, listed under `_composition` with their
/// own schemas (an input schema that is not an object lists as empty).
pub open spec fn comp_part(tools: Seq<ToolDefinition>) -> Seq<ListingView>
    decreases tools.len(),
{
    if tools.len() == 0 {
        Seq::empty()
    } else {
        let rest = comp_part(tools.drop_last());
        let t = tools.last();
        if t.implementation is Spec {
            rest.push(
                ListingView {
                    target: "_composition"@,
                    name: t.name@,
                    description: opt_text(t.description),
                    input_schema: match object_members(opt_json(t.input_schema)) {
                        Some(ms) => ms,
                        None => Seq::empty(),
                    },
                    output_schema: object_members(opt_json(t.output_schema)),
                    origin: ListingOrigin::Composition,
                },
            )
        } else {
            rest
        }
    }
}

/// Whether a listing passes through a backend tool before index `m`.
pub open spec fn passed_before(o: ListingOrigin, m: int) -> bool {
    match o {
        ListingOrigin::Passthrough { backend_index } => backend_index < m,
        _ => false,
    }
}

/// Every entry of the first `m` passed-through tools comes from a backend tool
/// before index `m`, and each from one backend tool.
proof fn lemma_pass_part_origins(tools: Seq<ToolDefinition>, b: Seq<BackendTool>, m: int, k: int)
    requires
        0 <= k < m <= b.len(),
        b.len() <= usize::MAX,
    ensures
        forall|i: int| 0 <= i < pass_part(tools, b, m).len() ==> passed_before((#[trigger] pass_part(tools, b, m)[i]).origin, m),
        (exists|i: int| 0 <= i < pass_part(tools, b, m).len() && #[trigger] pass_part(tools, b, m)[i].origin
            == ListingOrigin::Passthrough { backend_index: k as usize }) <==> virtual_names(
            tools,
            b[k].target@,
            b[k].name@,
        ).len() == 0,
    decreases m,
{
    let p = pass_part(tools, b, m);
    let prev = pass_part(tools, b, m - 1);
    let target = ListingOrigin::Passthrough { backend_index: k as usize };
    if m - 1 > k {
        lemma_pass_part_origins(tools, b, m - 1, k);
    } else if m - 1 > 0 {
        lemma_pass_part_origins(tools, b, m - 1, 0);
    }
    assert forall|i: int| 0 <= i < prev.len() implies passed_before((#[trigger] prev[i]).origin, m - 1) by {
        if m - 1 > 0 {
            assert(passed_before(prev[i].origin, m - 1));
        }
    }
    assert forall|i: int| 0 <= i < prev.len() implies p[i] == prev[i] by {}
    let added = virtual_names(tools, b[m - 1].target@, b[m - 1].name@).len() == 0;
    if added {
        assert(p.len() == prev.len() + 1);
        assert(p[prev.len() as int].origin == ListingOrigin::Passthrough { backend_index: (m - 1) as usize });
    } else {
        assert(p == prev);
    }
    if m - 1 > k {
        if added {
            assert((m - 1) as usize != k as usize);
            if exists|i: int| 0 <= i < p.len() && #[trigger] p[i].origin == target {
                let i = choose|i: int| 0 <= i < p.len() && #[trigger] p[i].origin == target;
                assert(i < prev.len());
                assert(prev[i].origin == target);
            }
            if exists|i: int| 0 <= i < prev.len() && #[trigger] prev[i].origin == target {
                let i = choose|i: int| 0 <= i < prev.len() && #[trigger] prev[i].origin == target;
                assert(p[i].origin == target);
            }
        }
    } else {
        assert(k == m - 1);
        assert forall|i: int| 0 <= i < prev.len() implies #[trigger] prev[i].origin != target by {
            assert(passed_before(prev[i].origin, m - 1));
        }
        if added {
            assert(p[prev.len() as int].origin == target);
        } else {
            assert forall|i: int| 0 <= i < p.len() implies #[trigger] p[i].origin != target by {
                assert(p[i] == prev[i]);
            }
        }
    }
}

/// Listing replaces exactly the backend tools that have a virtual counterpart: a
/// backend tool is passed through (unchanged) if and only if no virtual tool has
/// it as its source.
pub proof fn law_passthrough_iff_not_virtualized(tools: Seq<ToolDefinition>, backend_tools: Seq<BackendTool>, k: int)
    requires
        0 <= k < backend_tools.len(),
        backend_tools.len() <= usize::MAX,
    ensures
        (exists|i: int|
            0 <= i < pass_part(tools, backend_tools, backend_tools.len() as int).len()
                && #[trigger] pass_part(tools, backend_tools, backend_tools.len() as int)[i].origin
                == ListingOrigin::Passthrough { backend_index: k as usize }) <==> virtual_names(
            tools,
            backend_tools[k].target@,
            backend_tools[k].name@,
        ).len() == 0,
{
    lemma_pass_part_origins(tools, backend_tools, backend_tools.len() as int, k);
}

proof fn lemma_first_backend_prefix(b: Seq<BackendTool>, m: int, target: Seq<char>, tool: Seq<char>)
    requires
        0 <= m <= b.len(),
        first_backend(b.take(m), target, tool) is Some,
    ensures
        first_backend(b, target, tool) == first_backend(b.take(m), target, tool),
    decreases b.len() - m,
{
    if m == b.len() {
        assert(b.take(m) =~= b);
    } else {
        assert(b.take(m + 1).drop_last() =~= b.take(m));
        lemma_first_backend_prefix(b, m + 1, target, tool);
    }
}

/// Index of the first backend tool that `target` lists as `tool`.
fn find_backend(b: &Vec<BackendTool>, target: &str, tool: &str) -> (r: Option<usize>)
    ensures
        match r {
            Some(i) => first_backend(b@, target@, tool@) == Some(i as int) && i < b@.len(),
            None => first_backend(b@, target@, tool@) is None,
        },
{
    let mut j: usize = 0;
    assert(b@.take(0) =~= Seq::<BackendTool>::empty());
    while j < b.len()
        invariant
            j <= b@.len(),
            first_backend(b@.take(j as int), target@, tool@) is None,
        decreases b@.len() - j,
    {
        assert(b@.take(j + 1).drop_last() =~= b@.take(j as int));
        assert(b@.take(j + 1).last() == b@[j as int]);
        if str_eq(b[j].target.as_str(), target) && str_eq(b[j].name.as_str(), tool) {
            proof {
                lemma_first_backend_prefix(b@, j + 1, target@, tool@);
            }
            return Some(j);
        }
        j = j + 1;
    }
    assert(b@.take(b@.len() as int) =~= b@);
    None
}

fn copy_opt_text(o: &Option<String>) -> (r: Option<String>)
    ensures
        opt_text(r) == opt_text(*o),
{
    match o {
        Some(x) => Some(x.clone()),
        None => None,
    }
}

fn copy_opt_members(o: &Option<Vec<(String, JsonValue)>>) -> (r: Option<Vec<(String, JsonValue)>>)
    ensures
        opt_members(r) == opt_members(*o),
{
    match o {
        Some(x) => Some(copy_members(x)),
        None => None,
    }
}

proof fn lemma_listings_push(ls: Seq<ToolListing>, l: ToolListing)
    ensures
        listings_view(ls.push(l)) == listings_view(ls).push(listing_view(l)),
{
    assert(listings_view(ls.push(l)) =~= listings_view(ls).push(listing_view(l)));
}

impl CompiledRegistry {
    /// The tools to list to agents, given the tools the backends list: first each
    /// virtual tool whose source some backend lists (over the first such backend
    /// tool), in registry order; then, in their order, the backend tools that no
    /// virtual tool replaces; then the compositions, in registry order.
    pub fn transform_tools(&self, backend_tools: &Vec<BackendTool>) -> (r: Vec<ToolListing>)
        ensures
            listings_view(r@) == virtual_part(self.tools_view(), backend_tools@) + pass_part(
                self.tools_view(),
                backend_tools@,
                backend_tools@.len() as int,
            ) + comp_part(self.tools_view()),
    {
        let ghost tv = self.tools@;
        let ghost bv = backend_tools@;
        let mut out: Vec<ToolListing> = Vec::new();
        let mut i: usize = 0;
        assert(tv.take(0) =~= Seq::<ToolDefinition>::empty());
        assert(listings_view(out@) =~= Seq::<ListingView>::empty());
        while i < self.tools.len()
            invariant
                i <= tv.len(),
                tv == self.tools@,
                bv == backend_tools@,
                listings_view(out@) == virtual_part(tv.take(i as int), bv),
            decreases tv.len() - i,
        {
            assert(tv.take(i + 1).drop_last() =~= tv.take(i as int));
            assert(tv.take(i + 1).last() == tv[i as int]);
            let t = &self.tools[i];
            match &t.implementation {
                ToolImplementation::Source(src) => {
                    match find_backend(backend_tools, src.target.as_str(), src.tool.as_str()) {
                        Some(bi) => {
                            let b = &backend_tools[bi];
                            let description = match &t.description {
                                Some(d) => Some(d.clone()),
                                None => copy_opt_text(&b.description),
                            };
                            let output_schema = match &t.output_schema {
                                Some(JsonValue::Object(ms)) => Some(copy_members(ms)),
                                _ => copy_opt_members(&b.output_schema),
                            };
                            let l = ToolListing {
                                target: b.target.clone(),
                                name: t.name.clone(),
                                description,
                                input_schema: effective_schema(&t.input_schema, &b.input_schema, &src.hide_fields),
                                output_schema,
                                origin: ListingOrigin::Virtual { backend_index: bi },
                            };
                            proof {
                                lemma_listings_push(out@, l);
                                assert(listing_view(l) == virtual_listing(*t, *src, bv[bi as int], bi as int));
                            }
                            out.push(l);
                        },
                        None => {},
                    }
                },
                ToolImplementation::Spec(_) => {},
            }
            i = i + 1;
        }
        assert(tv.take(tv.len() as int) =~= tv);
        let ghost vp = listings_view(out@);
        let mut k: usize = 0;
        while k < backend_tools.len()
            invariant
                k <= bv.len(),
                tv == self.tools@,
                bv == backend_tools@,
                listings_view(out@) == vp + pass_part(tv, bv, k as int),
            decreases bv.len() - k,
        {
            let b = &backend_tools[k];
            if !self.is_virtualized(b.target.as_str(), b.name.as_str()) {
                let l = ToolListing {
                    target: b.target.clone(),
                    name: b.name.clone(),
                    description: copy_opt_text(&b.description),
                    input_schema: copy_members(&b.input_schema),
                    output_schema: copy_opt_members(&b.output_schema),
                    origin: ListingOrigin::Passthrough { backend_index: k },
                };
                proof {
                    lemma_listings_push(out@, l);
                }
                out.push(l);
                assert(listings_view(out@) =~= vp + pass_part(tv, bv, k + 1));
            } else {
                assert(listings_view(out@) =~= vp + pass_part(tv, bv, k + 1));
            }
            k = k + 1;
        }
        let ghost pp = listings_view(out@);
        let mut i: usize = 0;
        assert(tv.take(0) =~= Seq::<ToolDefinition>::empty());
        assert(pp + comp_part(tv.take(0)) =~= pp);
        while i < self.tools.len()
            invariant
                i <= tv.len(),
                tv == self.tools@,
                listings_view(out@) == pp + comp_part(tv.take(i as int)),
            decreases tv.len() - i,
        {
            assert(tv.take(i + 1).drop_last() =~= tv.take(i as int));
            assert(tv.take(i + 1).last() == tv[i as int]);
            let t = &self.tools[i];
            if t.is_composition() {
                let input_schema = match &t.input_schema {
                    Some(JsonValue::Object(ms)) => copy_members(ms),
                    _ => {
                        let e: Vec<(String, JsonValue)> = Vec::new();
                        assert(members_view(e@) =~= Seq::<(Seq<char>, JsonView)>::empty());
                        e
                    },
                };
                let output_schema = match &t.output_schema {
                    Some(JsonValue::Object(ms)) => Some(copy_members(ms)),
                    _ => None,
                };
                let l = ToolListing {
                    target: "_composition".to_owned(),
                    name: t.name.clone(),
                    description: copy_opt_text(&t.description),
                    input_schema,
                    output_schema,
                    origin: ListingOrigin::Composition,
                };
                proof {
                    lemma_listings_push(out@, l);
                    reveal_strlit("_composition");
                    assert(listing_view(l).input_schema == match object_members(opt_json(t.input_schema)) {
                        Some(ms) => ms,
                        None => Seq::<(Seq<char>, JsonView)>::empty(),
                    });
                    assert(listing_view(l).output_schema == object_members(opt_json(t.output_schema)));
                    assert(listing_view(l).target == "_composition"@);
                }
                out.push(l);
                assert(listings_view(out@) =~= pp + comp_part(tv.take(i + 1)));
            } else {
                assert(listings_view(out@) =~= pp + comp_part(tv.take(i + 1)));
            }
            i = i + 1;
        }
        assert(tv.take(tv.len() as int) =~= tv);
        out
    }
}

// ---------------------------------------------------------------------------
// JSON embedded in text
// ---------------------------------------------------------------------------

/// The scanner's state after a character: bracket depth, whether it is inside a
/// string, and whether the next character is escaped.
pub open spec fn scan_step(st: (int, bool, bool), c: char, open: char, close: char) -> (int, bool, bool) {
    if st.2 {
        (st.0, st.1, false)
    } else if c == '\\' && st.1 {
        (st.0, st.1, true)
    } else if c == '"' {
        (st.0, !st.1, false)
    } else if st.1 {
        st
    } else if c == open {
        (st.0 + 1, st.1, st.2)
    } else if c == close {
        (st.0 - 1, st.1, st.2)
    } else {
        st
    }
}

/// The scanner's state after the characters `s`.
pub open spec fn scan_state(s: Seq<char>, open: char, close: char) -> (int, bool, bool)
    decreases s.len(),
{
    if s.len() == 0 {
        (0, false, false)
    } else {
        scan_step(scan_state(s.drop_last(), open, close), s.last(), open, close)
    }
}

/// Whether the character at `i` closes the outermost bracket: a closing bracket,
/// outside any string and not escaped, that brings the depth back to zero.
pub open spec fn closes_at(s: Seq<char>, i: int, open: char, close: char) -> bool {
    let st = scan_state(s.take(i), open, close);
    &&& 0 <= i < s.len()
    &&& !st.2
    &&& !st.1
    &&& s[i] != '"' && s[i] != '\\' && s[i] != open
    &&& s[i] == close
    &&& st.0 == 1
}

/// Length of the balanced bracketed text that `s` starts with, if it closes.
#[verifier::opaque]
pub open spec fn span_end(s: Seq<char>, open: char, close: char) -> Option<int> {
    if exists|i: int| closes_at(s, i, open, close) {
        let i = choose|i: int| closes_at(s, i, open, close) && forall|j: int| 0 <= j < i ==> !closes_at(s, j, open, close);
        Some(i + 1)
    } else {
        None
    }
}

/// Index of the first `c` in `s`.
#[verifier::opaque]
pub open spec fn first_index(s: Seq<char>, c: char) -> Option<int> {
    if exists|i: int| 0 <= i < s.len() && s[i] == c {
        Some(choose|i: int| 0 <= i < s.len() && s[i] == c && forall|j: int| 0 <= j < i ==> s[j] != c)
    } else {
        None
    }
}

/// The text from the first `open` to the bracket that closes it, if any.
#[verifier::opaque]
pub open spec fn bracketed(s: Seq<char>, open: char, close: char) -> Seq<Seq<char>> {
    match first_index(s, open) {
        Some(a) => match span_end(s.skip(a), open, close) {
            Some(e) => seq![s.skip(a).take(e)],
            None => Seq::empty(),
        },
        None => Seq::empty(),
    }
}

proof fn lemma_scan_bounds(s: Seq<char>, open: char, close: char)
    ensures
        -s.len() <= scan_state(s, open, close).0 <= s.len(),
    decreases s.len(),
{
    if s.len() > 0 {
        lemma_scan_bounds(s.drop_last(), open, close);
    }
}

proof fn lemma_first_index(s: Seq<char>, c: char, i: int)
    requires
        0 <= i < s.len(),
        s[i] == c,
        forall|j: int| 0 <= j < i ==> s[j] != c,
    ensures
        first_index(s, c) == Some(i),
{
    reveal(first_index);
    let k = choose|k: int| 0 <= k < s.len() && s[k] == c && forall|j: int| 0 <= j < k ==> s[j] != c;
    if k < i {
    } else if k > i {
        assert(s[i] == c);
    }
}

proof fn lemma_span_end(s: Seq<char>, open: char, close: char, i: int)
    requires
        closes_at(s, i, open, close),
        forall|j: int| 0 <= j < i ==> !closes_at(s, j, open, close),
    ensures
        span_end(s, open, close) == Some(i + 1),
{
    reveal(span_end);
    let k = choose|k: int| closes_at(s, k, open, close) && forall|j: int| 0 <= j < k ==> !closes_at(s, j, open, close);
    if k < i {
    } else if k > i {
        assert(closes_at(s, i, open, close));
    }
}

/// Length of the balanced bracketed text at the start of `v[from..]`.
fn scan_span(v: &Vec<char>, from: usize, open: char, close: char) -> (r: Option<usize>)
    requires
        from <= v@.len(),
        open != close,
        close != '"' && close != '\\',
    ensures
        match r {
            Some(e) => span_end(v@.skip(from as int), open, close) == Some(e as int) && from + e <= v@.len(),
            None => span_end(v@.skip(from as int), open, close) is None,
        },
{
    let ghost s = v@.skip(from as int);
    let mut depth: i128 = 0;
    let mut in_string = false;
    let mut escape = false;
    let mut i: usize = 0;
    assert(s.take(0) =~= Seq::<char>::empty());
    let len = v.len();
    let n = len - from;
    while i < n
        invariant
            n == s.len(),
            len == v@.len(),
            n == v@.len() - from,
            open != close,
            close != '"' && close != '\\',
            from <= v@.len(),
            i <= s.len(),
            s == v@.skip(from as int),
            (depth as int, in_string, escape) == scan_state(s.take(i as int), open, close),
            forall|j: int| 0 <= j < i ==> !closes_at(s, j, open, close),
        decreases s.len() - i,
    {
        proof {
            lemma_scan_bounds(s.take(i as int), open, close);
        }
        let ghost st = (depth as int, in_string, escape);
        let c = v[from + i];
        assert(s[i as int] == c);
        assert(s.take(i + 1).drop_last() =~= s.take(i as int));
        assert(s.take(i + 1).last() == c);
        if escape {
            escape = false;
        } else if c == '\\' && in_string {
            escape = true;
        } else if c == '"' {
            in_string = !in_string;
        } else if in_string {
        } else if c == open {
            depth = depth + 1;
        } else if c == close {
            depth = depth - 1;
            if depth == 0 {
                assert(!st.2 && !st.1 && st.0 == 1);
                assert(c != '"' && c != '\\' && c != open && c == close);
                assert(st == scan_state(s.take(i as int), open, close));
                assert(closes_at(s, i as int, open, close));
                proof {
                    lemma_span_end(s, open, close, i as int);
                }
                return Some(i + 1);
            }
        }
        i = i + 1;
    }
    proof {
        reveal(span_end);
        if exists|k: int| closes_at(s, k, open, close) {
            let k = choose|k: int| closes_at(s, k, open, close);
            assert(!closes_at(s, k, open, close));
        }
    }
    None
}

/// Index of the first `c` in `v`.
fn find_char(v: &Vec<char>, c: char) -> (r: Option<usize>)
    ensures
        match r {
            Some(i) => first_index(v@, c) == Some(i as int) && i < v@.len(),
            None => first_index(v@, c) is None,
        },
{
    let mut i: usize = 0;
    while i < v.len()
        invariant
            i <= v@.len(),
            forall|j: int| 0 <= j < i ==> v@[j] != c,
        decreases v@.len() - i,
    {
        if v[i] == c {
            proof {
                lemma_first_index(v@, c, i as int);
            }
            return Some(i);
        }
        i = i + 1;
    }
    proof {
        reveal(first_index);
    }
    None
}

fn bracketed_text(v: &Vec<char>, open: char, close: char) -> (r: Option<String>)
    requires
        open != close,
        close != '"' && close != '\\',
    ensures
        match r {
            Some(t) => bracketed(v@, open, close) == seq![t@],
            None => bracketed(v@, open, close) == Seq::<Seq<char>>::empty(),
        },
{
    reveal(bracketed);
    match find_char(v, open) {
        Some(a) => match scan_span(v, a, open, close) {
            Some(e) => {
                let len = v.len();
                assert(a + e <= len);
                let t = slice_to_string(v.as_slice(), a, a + e);
                assert(t@ =~= v@.skip(a as int).take(e as int));
                Some(t)
            },
            None => None,
        },
        None => None,
    }
}

/// The candidates for JSON embedded in a text, in the order to try them: the text
/// from the first `{` to the brace that closes it, then the text from the first
/// `[` to the bracket that closes it (brackets inside strings do not count). The
/// first candidate that parses as JSON is the embedded JSON.
pub fn json_candidates(text: &str) -> (r: Vec<String>)
    ensures
        strings_view(r@) == bracketed(text@, '{', '}') + bracketed(text@, '[', ']'),
{
    let v = str_to_chars(text);
    let mut out: Vec<String> = Vec::new();
    let ghost a = bracketed(text@, '{', '}');
    let ghost b = bracketed(text@, '[', ']');
    match bracketed_text(&v, '{', '}') {
        Some(t) => {
            out.push(t);
            assert(strings_view(out@) =~= a);
        },
        None => {
            assert(strings_view(out@) =~= a);
        },
    }
    let ghost first = out@;
    match bracketed_text(&v, '[', ']') {
        Some(t) => {
            out.push(t);
            assert(strings_view(out@) =~= strings_view(first) + b);
        },
        None => {
            assert(strings_view(out@) =~= strings_view(first) + b);
        },
    }
    out
}

// ---------------------------------------------------------------------------
// Environment references in defaults
// ---------------------------------------------------------------------------

/// Index of the first `}` in `s`.
pub open spec fn first_close(s: Seq<char>) -> Option<int>
    decreases s.len(),
{
    if s.len() == 0 {
        None
    } else if s[0] == '}' {
        Some(0)
    } else {
        match first_close(s.drop_first()) {
            Some(k) => Some(k + 1),
            None => None,
        }
    }
}

/// The first `}` lies within the text.
pub proof fn lemma_first_close_bound(t: Seq<char>)
    ensures
        first_close(t) matches Some(k) ==> 0 <= k < t.len() && t[k] == '}',
    decreases t.len(),
{
    if t.len() > 0 && t[0] != '}' {
        lemma_first_close_bound(t.drop_first());
    }
}

/// The names of the environment references `${NAME}` (`NAME` non-empty, without
/// `}`) in a text, left to right and without overlaps.
pub open spec fn env_refs(s: Seq<char>) -> Seq<Seq<char>>
    decreases s.len(),
{
    if s.len() < 2 {
        Seq::empty()
    } else if s[0] == '$' && s[1] == '{' && (first_close(s.skip(2)) is Some && first_close(s.skip(2))->0 > 0) {
        let k = first_close(s.skip(2))->0;
        proof {
            lemma_first_close_bound(s.skip(2));
        }
        seq![s.subrange(2, 2 + k)] + env_refs(s.skip(2 + k + 1))
    } else {
        env_refs(s.skip(1))
    }
}

/// The text with each reference `${name}` replaced by its value, one variable
/// after the other.
pub open spec fn spec_expand_env(s: Seq<char>, vars: Seq<(Seq<char>, Seq<char>)>) -> Seq<char>
    decreases vars.len(),
{
    if vars.len() == 0 {
        s
    } else {
        let t = spec_expand_env(s, vars.drop_last());
        replace_all(t, "${"@ + vars.last().0 + "}"@, vars.last().1)
    }
}

proof fn lemma_first_close(s: Seq<char>, k: int)
    requires
        0 <= k < s.len(),
        s[k] == '}',
        forall|j: int| 0 <= j < k ==> s[j] != '}',
    ensures
        first_close(s) == Some(k),
    decreases k,
{
    if k > 0 {
        lemma_first_close(s.drop_first(), k - 1);
    }
}

proof fn lemma_no_close(s: Seq<char>)
    requires
        forall|j: int| 0 <= j < s.len() ==> s[j] != '}',
    ensures
        first_close(s) is None,
    decreases s.len(),
{
    if s.len() > 0 {
        lemma_no_close(s.drop_first());
    }
}

/// Index of the first `}` at or after `from`.
fn find_close(v: &Vec<char>, from: usize) -> (r: Option<usize>)
    requires
        from <= v@.len(),
    ensures
        match r {
            Some(j) => from <= j < v@.len() && first_close(v@.skip(from as int)) == Some(j - from),
            None => first_close(v@.skip(from as int)) is None,
        },
{
    let mut j = from;
    while j < v.len()
        invariant
            from <= j <= v@.len(),
            forall|m: int| from <= m < j ==> v@[m] != '}',
        decreases v@.len() - j,
    {
        if v[j] == '}' {
            proof {
                lemma_first_close(v@.skip(from as int), j - from);
            }
            return Some(j);
        }
        j = j + 1;
    }
    proof {
        lemma_no_close(v@.skip(from as int));
    }
    None
}

/// The names of the environment references `${NAME}` in a text, in order.
pub fn env_references(text: &str) -> (r: Vec<String>)
    ensures
        strings_view(r@) == env_refs(text@),
{
    let v = str_to_chars(text);
    let ghost s = v@;
    let mut out: Vec<String> = Vec::new();
    let mut i: usize = 0;
    assert(s.skip(0) =~= s);
    while i < v.len()
        invariant
            s == v@,
            i <= s.len(),
            strings_view(out@) + env_refs(s.skip(i as int)) == env_refs(s),
        decreases s.len() - i,
    {
        let ghost rest = s.skip(i as int);
        if i + 1 < v.len() && v[i] == '$' && v[i + 1] == '{' {
            match find_close(&v, i + 2) {
                Some(j) => {
                    assert(rest.skip(2) =~= s.skip(i + 2));
                    if j > i + 2 {
                        let name = slice_to_string(v.as_slice(), i + 2, j);
                        let ghost k = j - (i + 2);
                        assert(name@ =~= rest.subrange(2, 2 + k));
                        assert(rest.skip(2 + k + 1) =~= s.skip(j + 1));
                        let ghost before = out@;
                        out.push(name);
                        assert(strings_view(out@) =~= strings_view(before).push(name@));
                        assert(strings_view(out@) + env_refs(s.skip(j + 1)) =~= strings_view(before) + (seq![name@]
                            + env_refs(s.skip(j + 1))));
                        i = j + 1;
                        continue;
                    }
                },
                None => {
                    assert(rest.skip(2) =~= s.skip(i + 2));
                },
            }
        }
        assert(rest.skip(1) =~= s.skip(i + 1));
        i = i + 1;
    }
    assert(env_refs(s.skip(i as int)) == Seq::<Seq<char>>::empty());
    assert(strings_view(out@) + Seq::<Seq<char>>::empty() =~= strings_view(out@));
    out
}

/// The text with each reference `${name}` of `vars` replaced by its value, in the
/// order of `vars`.
pub fn expand_env(text: &str, vars: &Vec<(String, String)>) -> (r: String)
    ensures
        r@ == spec_expand_env(text@, vars@.map_values(|p: (String, String)| (p.0@, p.1@))),
{
    let ghost vv = vars@.map_values(|p: (String, String)| (p.0@, p.1@));
    let mut out = text.to_owned();
    let mut i: usize = 0;
    assert(vv.take(0) =~= Seq::<(Seq<char>, Seq<char>)>::empty());
    while i < vars.len()
        invariant
            i <= vars@.len(),
            vv == vars@.map_values(|p: (String, String)| (p.0@, p.1@)),
            out@ == spec_expand_env(text@, vv.take(i as int)),
        decreases vars@.len() - i,
    {
        assert(vv.take(i + 1).drop_last() =~= vv.take(i as int));
        assert(vv.take(i + 1).last() == vv[i as int]);
        let open = concat_str("${", vars[i].0.as_str());
        let pat = concat_str(open.as_str(), "}");
        proof {
            reveal_strlit("${");
            reveal_strlit("}");
        }
        out = replace_all_exec(out.as_str(), pat.as_str(), vars[i].1.as_str());
        i = i + 1;
    }
    assert(vv.take(vars@.len() as int) =~= vv);
    out
}

/// The value of a variable among looked-up environment variables: the first entry
/// of that name, `None` when it is unset or not looked up.
pub open spec fn env_value(env: Seq<(String, Option<String>)>, name: Seq<char>) -> Option<Seq<char>>
    decreases env.len(),
{
    if env.len() == 0 {
        None
    } else if env[0].0@ == name {
        match env[0].1 {
            Some(v) => Some(v@),
            None => None,
        }
    } else {
        env_value(env.drop_first(), name)
    }
}

/// The values of the referenced variables, in order; the first unset one instead.
pub open spec fn env_values(refs: Seq<Seq<char>>, env: Seq<(String, Option<String>)>) -> Result<
    Seq<(Seq<char>, Seq<char>)>,
    Seq<char>,
>
    decreases refs.len(),
{
    if refs.len() == 0 {
        Ok(Seq::empty())
    } else {
        match env_values(refs.drop_last(), env) {
            Err(n) => Err(n),
            Ok(acc) => match env_value(env, refs.last()) {
                Some(v) => Ok(acc.push((refs.last(), v))),
                None => Err(refs.last()),
            },
        }
    }
}

/// A text with its `${NAME}` references filled in from `env`; the name of the
/// first unset variable instead.
pub open spec fn spec_resolve_env_string(s: Seq<char>, env: Seq<(String, Option<String>)>) -> Result<Seq<char>, Seq<char>> {
    match env_values(env_refs(s), env) {
        Ok(vars) => Ok(spec_expand_env(s, vars)),
        Err(n) => Err(n),
    }
}

/// A JSON value with the references in all its strings filled in from `env`; the
/// first unset variable, in order, instead.
pub open spec fn spec_resolve_env(v: JsonView, env: Seq<(String, Option<String>)>) -> Result<JsonView, Seq<char>>
    decreases v,
{
    match v {
        JsonView::String(s) => match spec_resolve_env_string(s, env) {
            Ok(t) => Ok(JsonView::String(t)),
            Err(n) => Err(n),
        },
        JsonView::Array(xs) => match spec_resolve_env_items(xs, env) {
            Ok(ys) => Ok(JsonView::Array(ys)),
            Err(n) => Err(n),
        },
        JsonView::Object(ms) => match spec_resolve_env_members(ms, env) {
            Ok(ns) => Ok(JsonView::Object(ns)),
            Err(n) => Err(n),
        },
        _ => Ok(v),
    }
}

/// The items of an array, resolved in order.
pub open spec fn spec_resolve_env_items(xs: Seq<JsonView>, env: Seq<(String, Option<String>)>) -> Result<
    Seq<JsonView>,
    Seq<char>,
>
    decreases xs,
{
    if xs.len() == 0 {
        Ok(Seq::empty())
    } else {
        match spec_resolve_env_items(xs.drop_last(), env) {
            Err(n) => Err(n),
            Ok(acc) => match spec_resolve_env(xs.last(), env) {
                Ok(y) => Ok(acc.push(y)),
                Err(n) => Err(n),
            },
        }
    }
}

/// The members of an object, their values resolved in order.
pub open spec fn spec_resolve_env_members(ms: Seq<(Seq<char>, JsonView)>, env: Seq<(String, Option<String>)>) -> Result<
    Seq<(Seq<char>, JsonView)>,
    Seq<char>,
>
    decreases ms,
{
    if ms.len() == 0 {
        Ok(Seq::empty())
    } else {
        match spec_resolve_env_members(ms.drop_last(), env) {
            Err(n) => Err(n),
            Ok(acc) => match spec_resolve_env(ms.last().1, env) {
                Ok(y) => Ok(acc.push((ms.last().0, y))),
                Err(n) => Err(n),
            },
        }
    }
}

/// The value of a variable among the looked-up ones.
fn lookup_env(env: &Vec<(String, Option<String>)>, name: &str) -> (r: Option<String>)
    ensures
        match env_value(env@, name@) {
            Some(v) => r matches Some(x) && x@ == v,
            None => r is None,
        },
{
    let mut i: usize = 0;
    assert(env@.skip(0) =~= env@);
    while i < env.len()
        invariant
            i <= env@.len(),
            env_value(env@, name@) == env_value(env@.skip(i as int), name@),
        decreases env@.len() - i,
    {
        assert(env@.skip(i as int)[0] == env@[i as int]);
        assert(env@.skip(i as int).drop_first() =~= env@.skip(i + 1));
        if str_eq(env[i].0.as_str(), name) {
            return match &env[i].1 {
                Some(v) => Some(v.clone()),
                None => None,
            };
        }
        i = i + 1;
    }
    None
}

proof fn lemma_env_values_err_stays(refs: Seq<Seq<char>>, env: Seq<(String, Option<String>)>, k: int)
    requires
        0 < k <= refs.len(),
        env_values(refs.take(k), env) is Err,
    ensures
        env_values(refs, env) == env_values(refs.take(k), env),
    decreases refs.len() - k,
{
    if k < refs.len() {
        assert(refs.take(k + 1).drop_last() =~= refs.take(k));
        lemma_env_values_err_stays(refs, env, k + 1);
    } else {
        assert(refs.take(k) =~= refs);
    }
}

/// A text with each `${NAME}` replaced by the variable's value among the looked-up
/// ones; the first reference to an unset variable is an `EnvVarNotFound` error.
pub fn resolve_env_string(s: &str, env: &Vec<(String, Option<String>)>) -> (r: Result<String, RegistryError>)
    ensures
        match spec_resolve_env_string(s@, env@) {
            Ok(t) => r matches Ok(x) && x@ == t,
            Err(n) => r matches Err(RegistryError::EnvVarNotFound { name }) && name@ == n,
        },
{
    let refs = env_references(s);
    let ghost rs = strings_view(refs@);
    let mut vars: Vec<(String, String)> = Vec::new();
    let mut i: usize = 0;
    assert(rs.take(0) =~= Seq::<Seq<char>>::empty());
    assert(vars@.map_values(|p: (String, String)| (p.0@, p.1@)) =~= Seq::<(Seq<char>, Seq<char>)>::empty());
    while i < refs.len()
        invariant
            i <= refs@.len(),
            vars@.len() == i,
            rs == strings_view(refs@),
            rs == env_refs(s@),
            env_values(rs.take(i as int), env@) == Ok::<Seq<(Seq<char>, Seq<char>)>, Seq<char>>(
                vars@.map_values(|p: (String, String)| (p.0@, p.1@)),
            ),
        decreases refs@.len() - i,
    {
        assert(rs.take(i + 1).drop_last() =~= rs.take(i as int));
        assert(rs.take(i + 1).last() == refs@[i as int]@);
        match lookup_env(env, refs[i].as_str()) {
            Some(v) => {
                let ghost before = vars@;
                vars.push((refs[i].clone(), v));
                assert(vars@.map_values(|p: (String, String)| (p.0@, p.1@)) =~= before.map_values(
                    |p: (String, String)| (p.0@, p.1@),
                ).push((refs@[i as int]@, vars@[i as int].1@)));
            },
            None => {
                proof {
                    assert(env_values(rs.take(i + 1), env@) == Err::<Seq<(Seq<char>, Seq<char>)>, Seq<char>>(refs@[i as int]@));
                    lemma_env_values_err_stays(rs, env@, i as int + 1);
                    assert(rs.take(rs.len() as int) =~= rs);
                }
                return Err(RegistryError::EnvVarNotFound { name: refs[i].clone() });
            },
        }
        i = i + 1;
    }
    assert(rs.take(rs.len() as int) =~= rs);
    Ok(expand_env(s, &vars))
}

proof fn lemma_items_err_stays(xs: Seq<JsonView>, env: Seq<(String, Option<String>)>, k: int)
    requires
        0 < k <= xs.len(),
        spec_resolve_env_items(xs.take(k), env) is Err,
    ensures
        spec_resolve_env_items(xs, env) == spec_resolve_env_items(xs.take(k), env),
    decreases xs.len() - k,
{
    if k < xs.len() {
        assert(xs.take(k + 1).drop_last() =~= xs.take(k));
        lemma_items_err_stays(xs, env, k + 1);
    } else {
        assert(xs.take(k) =~= xs);
    }
}

proof fn lemma_members_err_stays(ms: Seq<(Seq<char>, JsonView)>, env: Seq<(String, Option<String>)>, k: int)
    requires
        0 < k <= ms.len(),
        spec_resolve_env_members(ms.take(k), env) is Err,
    ensures
        spec_resolve_env_members(ms, env) == spec_resolve_env_members(ms.take(k), env),
    decreases ms.len() - k,
{
    if k < ms.len() {
        assert(ms.take(k + 1).drop_last() =~= ms.take(k));
        lemma_members_err_stays(ms, env, k + 1);
    } else {
        assert(ms.take(k) =~= ms);
    }
}

/// A JSON value with the references in all its strings filled in from the
/// looked-up variables (see `spec_resolve_env`); the first reference, in order,
/// to an unset variable is an `EnvVarNotFound` error.
pub fn resolve_env_vars(value: &JsonValue, env: &Vec<(String, Option<String>)>) -> (r: Result<JsonValue, RegistryError>)
    ensures
        match spec_resolve_env(value@, env@) {
            Ok(v) => r matches Ok(x) && x@ == v,
            Err(n) => r matches Err(RegistryError::EnvVarNotFound { name }) && name@ == n,
        },
    decreases value,
{
    match value {
        JsonValue::String(s) => match resolve_env_string(s.as_str(), env) {
            Ok(t) => Ok(JsonValue::String(t)),
            Err(e) => Err(e),
        },
        JsonValue::Array(items) => {
            let ghost xs = items_view(items@);
            proof {
                crate::json::lemma_array_view(*items);
            }
            let mut out: Vec<JsonValue> = Vec::new();
            let mut i: usize = 0;
            assert(xs.take(0) =~= Seq::<JsonView>::empty());
            assert(items_view(out@) =~= Seq::<JsonView>::empty());
            while i < items.len()
                invariant
                    i <= items@.len(),
                    xs == items_view(items@),
                    value@ == JsonView::Array(xs),
                    *value == JsonValue::Array(*items),
                    spec_resolve_env_items(xs.take(i as int), env@) == Ok::<Seq<JsonView>, Seq<char>>(items_view(out@)),
                decreases items@.len() - i,
            {
                assert(xs.take(i + 1).drop_last() =~= xs.take(i as int));
                assert(xs.take(i + 1).last() == items@[i as int]@);
                assert(decreases_to!(*value => *items));
                assert(decreases_to!(*items => items[i as int]));
                match resolve_env_vars(&items[i], env) {
                    Ok(y) => {
                        let ghost before = out@;
                        out.push(y);
                        assert(items_view(out@) =~= items_view(before).push(y@));
                    },
                    Err(e) => {
                        proof {
                            lemma_items_err_stays(xs, env@, i as int + 1);
                        }
                        return Err(e);
                    },
                }
                i = i + 1;
            }
            assert(xs.take(xs.len() as int) =~= xs);
            Ok(JsonValue::Array(out))
        },
        JsonValue::Object(members) => {
            let ghost ms = members_view(members@);
            proof {
                crate::json::lemma_object_view(*members);
            }
            let mut out: Vec<(String, JsonValue)> = Vec::new();
            let mut i: usize = 0;
            assert(ms.take(0) =~= Seq::<(Seq<char>, JsonView)>::empty());
            assert(members_view(out@) =~= Seq::<(Seq<char>, JsonView)>::empty());
            while i < members.len()
                invariant
                    i <= members@.len(),
                    ms == members_view(members@),
                    value@ == JsonView::Object(ms),
                    *value == JsonValue::Object(*members),
                    spec_resolve_env_members(ms.take(i as int), env@) == Ok::<Seq<(Seq<char>, JsonView)>, Seq<char>>(
                        members_view(out@),
                    ),
                decreases members@.len() - i,
            {
                assert(ms.take(i + 1).drop_last() =~= ms.take(i as int));
                assert(ms.take(i + 1).last() == (members@[i as int].0@, members@[i as int].1@));
                assert(decreases_to!(*value => *members));
                assert(decreases_to!(*members => members[i as int]));
                assert(decreases_to!(members[i as int] => members[i as int].1));
                match resolve_env_vars(&members[i].1, env) {
                    Ok(y) => {
                        let ghost before = out@;
                        out.push((members[i].0.clone(), y));
                        assert(members_view(out@) =~= members_view(before).push((members@[i as int].0@, y@)));
                    },
                    Err(e) => {
                        proof {
                            lemma_members_err_stays(ms, env@, i as int + 1);
                        }
                        return Err(e);
                    },
                }
                i = i + 1;
            }
            assert(ms.take(ms.len() as int) =~= ms);
            Ok(JsonValue::Object(out))
        },
        JsonValue::Null => Ok(JsonValue::Null),
        JsonValue::Bool(b) => Ok(JsonValue::Bool(*b)),
        JsonValue::Number(n) => Ok(JsonValue::Number(n.duplicate())),
    }
}

} // verus!

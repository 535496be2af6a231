//! Registry validation: duplicate names, missing dependencies, dependency cycles,
//! schema references, deprecations and version constraints.
use vstd::prelude::*;
use crate::json::{JsonValue, JsonView, find_key, position_of_key, group_json_view, members_view, items_view};
use crate::depgraph::{
    is_first_named, has_tool_dep_in, depends_on, is_dep_cycle, has_dep_cycle, canonical, CycleSearch,
    closes_on_dependency, reported_cycles, search_all, search_visit, first_index, lemma_first_exists, unmarked,
    opt_names,
    find_cycle_from, lemma_first_unique, lemma_ranked_acyclic,
};
use crate::registry::{Registry, Server, Schema, ToolDefinition, ToolImplementation, Dependency, DependencyType, tool_names, agent_names, find_tool, has_agent};
use crate::text::{dot_segments, strings_view, contains_name, str_to_chars, concat_str, str_eq, parse_u64_chars, parses_unsigned, digits_value, unsigned_digits, slice_to_string};

verus! {

broadcast use group_json_view;

/// Validation errors of a registry.
#[derive(Debug, PartialEq, Eq)]
pub enum ValidationError {
    /// A dependency cycle, as the list of tool names along it.
    DependencyCycle(Vec<String>),
    MissingDependency { tool: String, dependency: String, dep_type: String },
    MissingSchemaRef { tool: String, reference: String },
    VersionMismatch { tool: String, dependency: String, dep_type: String, required: String, found: String },
    DeprecatedUsage { tool: String, name: String, entity_type: String, message: String },
    DuplicateToolName(String),
    DuplicateSchemeName(String),
    DuplicateServerName(String),
    DuplicateAgentName(String),
}

/// Mathematical view of a validation error.
pub enum ErrorView {
    DependencyCycle(Seq<Seq<char>>),
    MissingDependency { tool: Seq<char>, dependency: Seq<char>, dep_type: Seq<char> },
    MissingSchemaRef { tool: Seq<char>, reference: Seq<char> },
    VersionMismatch {
        tool: Seq<char>,
        dependency: Seq<char>,
        dep_type: Seq<char>,
        required: Seq<char>,
        found: Seq<char>,
    },
    DeprecatedUsage { tool: Seq<char>, name: Seq<char>, entity_type: Seq<char>, message: Seq<char> },
    DuplicateToolName(Seq<char>),
    DuplicateSchemeName(Seq<char>),
    DuplicateServerName(Seq<char>),
    DuplicateAgentName(Seq<char>),
}

impl View for ValidationError {
    type V = ErrorView;

    open spec fn view(&self) -> ErrorView {
        match self {
            ValidationError::DependencyCycle(c) => ErrorView::DependencyCycle(
                c@.map_values(|s: String| s@),
            ),
            ValidationError::MissingDependency { tool, dependency, dep_type } =>
                ErrorView::MissingDependency {
                tool: tool@,
                dependency: dependency@,
                dep_type: dep_type@,
            },
            ValidationError::MissingSchemaRef { tool, reference } => ErrorView::MissingSchemaRef {
                tool: tool@,
                reference: reference@,
            },
            ValidationError::VersionMismatch { tool, dependency, dep_type, required, found } =>
                ErrorView::VersionMismatch {
                tool: tool@,
                dependency: dependency@,
                dep_type: dep_type@,
                required: required@,
                found: found@,
            },
            ValidationError::DeprecatedUsage { tool, name, entity_type, message } =>
                ErrorView::DeprecatedUsage {
                tool: tool@,
                name: name@,
                entity_type: entity_type@,
                message: message@,
            },
            ValidationError::DuplicateToolName(n) => ErrorView::DuplicateToolName(n@),
            ValidationError::DuplicateSchemeName(n) => ErrorView::DuplicateSchemeName(n@),
            ValidationError::DuplicateServerName(n) => ErrorView::DuplicateServerName(n@),
            ValidationError::DuplicateAgentName(n) => ErrorView::DuplicateAgentName(n@),
        }
    }
}

/// Validation warning (non-fatal).
#[derive(Debug, Clone, PartialEq, Eq)]
pub struct ValidationWarning {
    pub message: String,
    pub tool: Option<String>,
}

/// View of a warning: its message and the tool it concerns.
pub open spec fn warning_view(w: ValidationWarning) -> (Seq<char>, Option<Seq<char>>) {
    (
        w.message@,
        match w.tool {
            Some(t) => Some(t@),
            None => None,
        },
    )
}

/// Result of registry validation.
#[derive(Debug)]
pub struct ValidationResult {
    /// Fatal errors that prevent the registry from being used
    pub errors: Vec<ValidationError>,
    /// Warnings that should be logged but don't block usage
    pub warnings: Vec<ValidationWarning>,
}

/// Views of a sequence of errors.
pub open spec fn errors_view(errors: Seq<ValidationError>) -> Seq<ErrorView> {
    errors.map_values(|e: ValidationError| e@)
}

/// Views of a sequence of warnings.
pub open spec fn warnings_view(warnings: Seq<ValidationWarning>) -> Seq<(Seq<char>, Option<Seq<char>>)> {
    warnings.map_values(|w: ValidationWarning| warning_view(w))
}

impl ValidationResult {
    /// The errors, viewed.
    pub open spec fn errs(&self) -> Seq<ErrorView> {
        errors_view(self.errors@)
    }

    /// The warnings, viewed.
    pub open spec fn warns(&self) -> Seq<(Seq<char>, Option<Seq<char>>)> {
        warnings_view(self.warnings@)
    }

    /// A successful result with no errors or warnings.
    pub fn ok() -> (r: ValidationResult)
        ensures
            r.errors@.len() == 0,
            r.warnings@.len() == 0,
    {
        ValidationResult { errors: Vec::new(), warnings: Vec::new() }
    }

    /// Whether validation passed (no errors).
    pub fn is_ok(&self) -> (r: bool)
        ensures
            r == (self.errors@.len() == 0),
    {
        self.errors.len() == 0
    }

    /// Whether there are any warnings.
    pub fn has_warnings(&self) -> (r: bool)
        ensures
            r == (self.warnings@.len() > 0),
    {
        self.warnings.len() > 0
    }

    /// Adds an error.
    pub fn add_error(&mut self, error: ValidationError)
        ensures
            final(self).errors@ == old(self).errors@.push(error),
            final(self).warnings@ == old(self).warnings@,
    {
        self.errors.push(error);
    }

    /// Adds a warning.
    pub fn add_warning(&mut self, warning: ValidationWarning)
        ensures
            final(self).warnings@ == old(self).warnings@.push(warning),
            final(self).errors@ == old(self).errors@,
    {
        self.warnings.push(warning);
    }

    /// Appends the errors and warnings of `other`.
    pub fn absorb(&mut self, other: ValidationResult)
        ensures
            final(self).errs() == old(self).errs() + other.errs(),
            final(self).warns() == old(self).warns() + other.warns(),
    {
        let mut errors = other.errors;
        let mut warnings = other.warnings;
        let ghost oe = errors@;
        let ghost ow = warnings@;
        self.errors.append(&mut errors);
        self.warnings.append(&mut warnings);
        assert(errors_view(self.errors@) =~= errors_view(old(self).errors@) + errors_view(oe));
        assert(warnings_view(self.warnings@) =~= warnings_view(old(self).warnings@) + warnings_view(ow));
    }
}

// ---------------------------------------------------------------------------
// Duplicate names
// ---------------------------------------------------------------------------

/// The names that occur earlier in the sequence, in order of their repeated
/// occurrence.
pub open spec fn repeated_names(names: Seq<Seq<char>>) -> Seq<Seq<char>>
    decreases names.len(),
{
    if names.len() == 0 {
        Seq::empty()
    } else {
        let init = names.drop_last();
        if init.contains(names.last()) {
            repeated_names(init).push(names.last())
        } else {
            repeated_names(init)
        }
    }
}

/// Repeated occurrences of names, in order.
fn repeated(names: &Vec<String>) -> (r: Vec<String>)
    ensures
        r@.map_values(|s: String| s@) == repeated_names(names@.map_values(|s: String| s@)),
{
    let ghost nv = names@.map_values(|s: String| s@);
    let mut out: Vec<String> = Vec::new();
    let mut i: usize = 0;
    while i < names.len()
        invariant
            i <= names@.len(),
            nv == names@.map_values(|s: String| s@),
            out@.map_values(|s: String| s@) == repeated_names(nv.take(i as int)),
        decreases names@.len() - i,
    {
        let mut seen = false;
        let mut j: usize = 0;
        while j < i
            invariant
                j <= i < names@.len(),
                nv == names@.map_values(|s: String| s@),
                seen == exists|k: int| 0 <= k < j && nv[k] == nv[i as int],
            decreases i - j,
        {
            assert(nv[j as int] == names@[j as int]@);
            assert(nv[i as int] == names@[i as int]@);
            if str_eq(names[j].as_str(), names[i].as_str()) {
                seen = true;
            }
            j = j + 1;
        }
        proof {
            if seen {
                let k = choose|k: int| 0 <= k < i && nv[k] == nv[i as int];
                assert(nv.take(i as int)[k] == nv[i as int]);
            }
            if nv.take(i as int).contains(nv[i as int]) {
                let k = choose|k: int| 0 <= k < i && nv.take(i as int)[k] == nv[i as int];
                assert(nv[k] == nv[i as int]);
            }
        }
        assert(nv.take(i + 1).drop_last() == nv.take(i as int));
        assert(nv.take(i + 1).last() == nv[i as int]);
        if seen {
            let ghost prev = out@;
            out.push(names[i].clone());
            assert(out@.map_values(|s: String| s@) =~= prev.map_values(|s: String| s@).push(nv[i as int]));
        }
        i = i + 1;
    }
    assert(nv.take(names@.len() as int) == nv);
    out
}

// ---------------------------------------------------------------------------
// Specifications of the individual checks
// ---------------------------------------------------------------------------

/// The names of the schemas of a registry.
pub open spec fn schema_names(reg: Registry) -> Seq<Seq<char>> {
    reg.schemas@.map_values(|s: crate::registry::Schema| s.name@)
}

/// The names of the servers of a registry.
pub open spec fn server_names(reg: Registry) -> Seq<Seq<char>> {
    reg.servers@.map_values(|s: crate::registry::Server| s.name@)
}

/// Errors for repeated tool, schema, server and agent names, in that order.
pub open spec fn duplicate_name_errors(reg: Registry) -> Seq<ErrorView> {
    repeated_names(tool_names(reg.tools@)).map_values(|n: Seq<char>| ErrorView::DuplicateToolName(n))
        + repeated_names(schema_names(reg)).map_values(
        |n: Seq<char>| ErrorView::DuplicateSchemeName(n),
    ) + repeated_names(server_names(reg)).map_values(
        |n: Seq<char>| ErrorView::DuplicateServerName(n),
    ) + repeated_names(agent_names(reg.agents@)).map_values(
        |n: Seq<char>| ErrorView::DuplicateAgentName(n),
    )
}

proof fn lemma_repeated_empty(names: Seq<Seq<char>>)
    ensures
        repeated_names(names).len() == 0 <==> names.no_duplicates(),
    decreases names.len(),
{
    if names.len() > 0 {
        let init = names.drop_last();
        lemma_repeated_empty(init);
        if names.no_duplicates() {
            assert(init.no_duplicates()) by {
                assert forall|a: int, b: int| 0 <= a < init.len() && 0 <= b < init.len() && a != b implies init[a] != init[b] by {
                    assert(names[a] == init[a] && names[b] == init[b]);
                }
            }
            if init.contains(names.last()) {
                let k = choose|k: int| 0 <= k < init.len() && init[k] == names.last();
                assert(names[k] == names[names.len() - 1]);
            }
        } else if init.no_duplicates() && !init.contains(names.last()) {
            assert forall|a: int, b: int| 0 <= a < names.len() && 0 <= b < names.len() && a != b implies names[a] != names[b] by {
                if a < init.len() && b < init.len() {
                    assert(names[a] == init[a] && names[b] == init[b]);
                } else if a < init.len() {
                    assert(names[a] == init[a]);
                } else {
                    assert(names[b] == init[b]);
                }
            }
        }
    }
}

/// The duplicate-name check finds nothing exactly when the tools, the schemas,
/// the servers and the agents each have distinct names.
pub proof fn law_unique_names_iff(reg: Registry)
    ensures
        duplicate_name_errors(reg).len() == 0 <==> {
            &&& tool_names(reg.tools@).no_duplicates()
            &&& schema_names(reg).no_duplicates()
            &&& server_names(reg).no_duplicates()
            &&& agent_names(reg.agents@).no_duplicates()
        },
{
    lemma_repeated_empty(tool_names(reg.tools@));
    lemma_repeated_empty(schema_names(reg));
    lemma_repeated_empty(server_names(reg));
    lemma_repeated_empty(agent_names(reg.agents@));
}

/// The dependency names an existing tool or agent.
pub open spec fn dep_exists(reg: Registry, d: Dependency) -> bool {
    match d.dep_type {
        DependencyType::Tool => tool_names(reg.tools@).contains(d.name@),
        DependencyType::Agent => agent_names(reg.agents@).contains(d.name@),
    }
}

/// "tool" or "agent".
pub open spec fn dep_type_name(t: DependencyType) -> Seq<char> {
    match t {
        DependencyType::Tool => "tool"@,
        DependencyType::Agent => "agent"@,
    }
}

/// Errors for the dependencies of one tool that name nothing in the registry.
pub open spec fn missing_in(reg: Registry, tool: Seq<char>, deps: Seq<Dependency>) -> Seq<ErrorView>
    decreases deps.len(),
{
    if deps.len() == 0 {
        Seq::empty()
    } else {
        let rest = missing_in(reg, tool, deps.drop_last());
        let d = deps.last();
        if dep_exists(reg, d) {
            rest
        } else {
            rest.push(
                ErrorView::MissingDependency {
                    tool,
                    dependency: d.name@,
                    dep_type: dep_type_name(d.dep_type),
                },
            )
        }
    }
}

/// Errors for missing dependencies of the given tools, in order.
pub open spec fn missing_deps(reg: Registry, tools: Seq<ToolDefinition>) -> Seq<ErrorView>
    decreases tools.len(),
{
    if tools.len() == 0 {
        Seq::empty()
    } else {
        missing_deps(reg, tools.drop_last()) + missing_in(reg, tools.last().name@, tools.last().depends@)
    }
}

proof fn lemma_missing_in_empty(reg: Registry, tool: Seq<char>, deps: Seq<Dependency>)
    ensures
        missing_in(reg, tool, deps).len() == 0 <==> forall|k: int| 0 <= k < deps.len() ==> dep_exists(reg, #[trigger] deps[k]),
    decreases deps.len(),
{
    if deps.len() > 0 {
        let a = deps.drop_last();
        lemma_missing_in_empty(reg, tool, a);
        if forall|k: int| 0 <= k < a.len() ==> dep_exists(reg, #[trigger] a[k]) {
            assert forall|k: int| 0 <= k < deps.len() - 1 implies dep_exists(reg, #[trigger] deps[k]) by {
                assert(deps[k] == a[k]);
            }
        } else {
            let k = choose|k: int| 0 <= k < a.len() && !dep_exists(reg, #[trigger] a[k]);
            assert(deps[k] == a[k]);
        }
    }
}

/// The dependency check finds nothing exactly when every dependency of every
/// tool names a tool (tool dependencies) or an agent (agent dependencies) of the
/// registry.
pub proof fn law_dependencies_resolve_iff(reg: Registry, tools: Seq<ToolDefinition>)
    ensures
        missing_deps(reg, tools).len() == 0 <==> forall|i: int, k: int|
            0 <= i < tools.len() && 0 <= k < tools[i].depends@.len() ==> dep_exists(reg, #[trigger] tools[i].depends@[k]),
    decreases tools.len(),
{
    if tools.len() > 0 {
        let a = tools.drop_last();
        let t = tools.last();
        law_dependencies_resolve_iff(reg, a);
        lemma_missing_in_empty(reg, t.name@, t.depends@);
        assert forall|i: int| 0 <= i < a.len() implies a[i] == tools[i] by {}
        if missing_deps(reg, tools).len() == 0 {
            assert forall|i: int, k: int|
                0 <= i < tools.len() && 0 <= k < tools[i].depends@.len() implies dep_exists(reg, #[trigger] tools[i].depends@[k]) by {
                if i < a.len() {
                    assert(a[i].depends@[k] == tools[i].depends@[k]);
                }
            }
        } else if forall|i: int, k: int|
            0 <= i < tools.len() && 0 <= k < tools[i].depends@.len() ==> dep_exists(reg, #[trigger] tools[i].depends@[k]) {
            assert forall|i: int, k: int|
                0 <= i < a.len() && 0 <= k < a[i].depends@.len() implies dep_exists(reg, #[trigger] a[i].depends@[k]) by {
                assert(a[i] == tools[i]);
            }
            assert forall|k: int| 0 <= k < t.depends@.len() implies dep_exists(reg, #[trigger] t.depends@[k]) by {
                assert(tools[tools.len() - 1] == t);
            }
        }
    }
}

/// The prefix of schema references.
pub open spec fn schema_ref_prefix() -> Seq<char> {
    "#/schemas/"@
}

/// The error for a `$ref` value: a string of the form `#/schemas/<name>` naming no
/// schema of the registry.
pub open spec fn ref_error(tool: Seq<char>, v: JsonView, names: Seq<Seq<char>>) -> Seq<ErrorView> {
    let p = schema_ref_prefix();
    match v {
        JsonView::String(s) => if s.len() >= p.len() && s.take(p.len() as int) == p && !names.contains(
            s.skip(p.len() as int),
        ) {
            seq![ErrorView::MissingSchemaRef { tool, reference: s }]
        } else {
            Seq::empty()
        },
        _ => Seq::empty(),
    }
}

/// Errors for the schema references anywhere inside a JSON value: an object's own
/// `$ref` first, then those inside its values, in order; those inside the items of
/// an array, in order.
pub open spec fn schema_errors(v: JsonView, tool: Seq<char>, names: Seq<Seq<char>>) -> Seq<ErrorView>
    decreases v,
{
    match v {
        JsonView::Object(ms) => (match find_key(ms, "$ref"@) {
            Some(i) => ref_error(tool, ms[i].1, names),
            None => Seq::empty(),
        }) + member_errors(ms, tool, names),
        JsonView::Array(items) => item_errors(items, tool, names),
        _ => Seq::empty(),
    }
}

/// Schema reference errors inside the values of object members, in order.
pub open spec fn member_errors(ms: Seq<(Seq<char>, JsonView)>, tool: Seq<char>, names: Seq<Seq<char>>) -> Seq<ErrorView>
    decreases ms,
{
    if ms.len() == 0 {
        Seq::empty()
    } else {
        member_errors(ms.drop_last(), tool, names) + schema_errors(ms.last().1, tool, names)
    }
}

/// Schema reference errors inside the items of an array, in order.
pub open spec fn item_errors(items: Seq<JsonView>, tool: Seq<char>, names: Seq<Seq<char>>) -> Seq<ErrorView>
    decreases items,
{
    if items.len() == 0 {
        Seq::empty()
    } else {
        item_errors(items.drop_last(), tool, names) + schema_errors(items.last(), tool, names)
    }
}

/// Schema reference errors of one tool: its input schema, then its output schema.
pub open spec fn tool_schema_errors(t: ToolDefinition, names: Seq<Seq<char>>) -> Seq<ErrorView> {
    (match t.input_schema {
        Some(s) => schema_errors(s@, t.name@, names),
        None => Seq::empty(),
    }) + (match t.output_schema {
        Some(s) => schema_errors(s@, t.name@, names),
        None => Seq::empty(),
    })
}

/// Schema reference errors of the given tools, in order.
pub open spec fn schema_ref_errors(tools: Seq<ToolDefinition>, names: Seq<Seq<char>>) -> Seq<ErrorView>
    decreases tools.len(),
{
    if tools.len() == 0 {
        Seq::empty()
    } else {
        schema_ref_errors(tools.drop_last(), names) + tool_schema_errors(tools.last(), names)
    }
}

// ---------------------------------------------------------------------------
// The validator
// ---------------------------------------------------------------------------

/// Registry validator.
pub struct RegistryValidator<'a> {
    registry: &'a Registry,
}

/// Kind of a duplicate-name error.
enum NameKind {
    Tool,
    Schema,
    Server,
    Agent,
}

spec fn kind_error(k: NameKind, n: Seq<char>) -> ErrorView {
    match k {
        NameKind::Tool => ErrorView::DuplicateToolName(n),
        NameKind::Schema => ErrorView::DuplicateSchemeName(n),
        NameKind::Server => ErrorView::DuplicateServerName(n),
        NameKind::Agent => ErrorView::DuplicateAgentName(n),
    }
}

/// Appends an error of the given kind for each name, in order.
fn add_duplicates(result: &mut ValidationResult, names: Vec<String>, kind: NameKind)
    ensures
        final(result).errs() == old(result).errs() + strings_view(names@).map_values(
            |n: Seq<char>| kind_error(kind, n),
        ),
        final(result).warnings@ == old(result).warnings@,
{
    let ghost target = strings_view(names@).map_values(|n: Seq<char>| kind_error(kind, n));
    let mut i: usize = 0;
    while i < names.len()
        invariant
            i <= names@.len(),
            target == strings_view(names@).map_values(|n: Seq<char>| kind_error(kind, n)),
            result.errs() == old(result).errs() + target.take(i as int),
            result.warnings@ == old(result).warnings@,
        decreases names@.len() - i,
    {
        let n = names[i].clone();
        let e = match kind {
            NameKind::Tool => ValidationError::DuplicateToolName(n),
            NameKind::Schema => ValidationError::DuplicateSchemeName(n),
            NameKind::Server => ValidationError::DuplicateServerName(n),
            NameKind::Agent => ValidationError::DuplicateAgentName(n),
        };
        let ghost prev = result.errors@;
        assert(e@ == target[i as int]);
        result.add_error(e);
        assert(errors_view(prev.push(e)) =~= errors_view(prev).push(e@));
        assert(target.take(i + 1) =~= target.take(i as int).push(target[i as int]));
        i = i + 1;
    }
    assert(target.take(names@.len() as int) =~= target);
}

impl<'a> RegistryValidator<'a> {
    /// The registry under validation.
    pub closed spec fn reg(&self) -> Registry {
        *self.registry
    }

    /// A validator for the given registry.
    pub fn new(registry: &'a Registry) -> (r: RegistryValidator<'a>)
        ensures
            r.reg() == *registry,
    {
        RegistryValidator { registry }
    }

    /// Errors for duplicate tool, schema, server and agent names: one per repeated
    /// occurrence, tools first, then schemas, servers and agents.
    pub fn validate_unique_names(&self) -> (r: ValidationResult)
        ensures
            r.errs() == duplicate_name_errors(self.reg()),
            r.warnings@.len() == 0,
    {
        let reg = self.registry;
        let mut result = ValidationResult::ok();

        let mut names: Vec<String> = Vec::new();
        for t in it: reg.tools.iter()
            invariant
                it.seq() == reg.tools@.map_values(|x: ToolDefinition| &x),
                strings_view(names@) == tool_names(reg.tools@).take(it.index() as int),
        {
            let ghost prev = names@;
            names.push(t.name.clone());
            assert(strings_view(names@) =~= strings_view(prev).push(t.name@));
            assert(tool_names(reg.tools@).take(it.index() + 1) =~= tool_names(reg.tools@).take(it.index() as int).push(t.name@));
        }
        assert(tool_names(reg.tools@).take(reg.tools@.len() as int) =~= tool_names(reg.tools@));
        let rep = repeated(&names);
        add_duplicates(&mut result, rep, NameKind::Tool);

        let mut names: Vec<String> = Vec::new();
        for s in it: reg.schemas.iter()
            invariant
                it.seq() == reg.schemas@.map_values(|x: crate::registry::Schema| &x),
                strings_view(names@) == schema_names(*reg).take(it.index() as int),
        {
            let ghost prev = names@;
            names.push(s.name.clone());
            assert(strings_view(names@) =~= strings_view(prev).push(s.name@));
            assert(schema_names(*reg).take(it.index() + 1) =~= schema_names(*reg).take(it.index() as int).push(s.name@));
        }
        assert(schema_names(*reg).take(reg.schemas@.len() as int) =~= schema_names(*reg));
        let rep = repeated(&names);
        add_duplicates(&mut result, rep, NameKind::Schema);

        let mut names: Vec<String> = Vec::new();
        for s in it: reg.servers.iter()
            invariant
                it.seq() == reg.servers@.map_values(|x: crate::registry::Server| &x),
                strings_view(names@) == server_names(*reg).take(it.index() as int),
        {
            let ghost prev = names@;
            names.push(s.name.clone());
            assert(strings_view(names@) =~= strings_view(prev).push(s.name@));
            assert(server_names(*reg).take(it.index() + 1) =~= server_names(*reg).take(it.index() as int).push(s.name@));
        }
        assert(server_names(*reg).take(reg.servers@.len() as int) =~= server_names(*reg));
        let rep = repeated(&names);
        add_duplicates(&mut result, rep, NameKind::Server);

        let mut names: Vec<String> = Vec::new();
        for a in it: reg.agents.iter()
            invariant
                it.seq() == reg.agents@.map_values(|x: crate::registry::AgentDefinition| &x),
                strings_view(names@) == agent_names(reg.agents@).take(it.index() as int),
        {
            let ghost prev = names@;
            names.push(a.name.clone());
            assert(strings_view(names@) =~= strings_view(prev).push(a.name@));
            assert(agent_names(reg.agents@).take(it.index() + 1) =~= agent_names(reg.agents@).take(it.index() as int).push(a.name@));
        }
        assert(agent_names(reg.agents@).take(reg.agents@.len() as int) =~= agent_names(reg.agents@));
        let rep = repeated(&names);
        add_duplicates(&mut result, rep, NameKind::Agent);

        let ghost r = *reg;
        assert(repeated_names(tool_names(r.tools@)).map_values(|n: Seq<char>| kind_error(NameKind::Tool, n))
            =~= repeated_names(tool_names(r.tools@)).map_values(|n: Seq<char>| ErrorView::DuplicateToolName(n)));
        assert(repeated_names(schema_names(r)).map_values(|n: Seq<char>| kind_error(NameKind::Schema, n))
            =~= repeated_names(schema_names(r)).map_values(|n: Seq<char>| ErrorView::DuplicateSchemeName(n)));
        assert(repeated_names(server_names(r)).map_values(|n: Seq<char>| kind_error(NameKind::Server, n))
            =~= repeated_names(server_names(r)).map_values(|n: Seq<char>| ErrorView::DuplicateServerName(n)));
        assert(repeated_names(agent_names(r.agents@)).map_values(|n: Seq<char>| kind_error(NameKind::Agent, n))
            =~= repeated_names(agent_names(r.agents@)).map_values(|n: Seq<char>| ErrorView::DuplicateAgentName(n)));
        assert(Seq::<ErrorView>::empty() + repeated_names(tool_names(r.tools@)).map_values(|n: Seq<char>| ErrorView::DuplicateToolName(n))
            =~= repeated_names(tool_names(r.tools@)).map_values(|n: Seq<char>| ErrorView::DuplicateToolName(n)));
        result
    }

    /// Errors for dependencies that name no tool or agent of the registry, in the
    /// order of the tools and of their dependencies.
    pub fn validate_dependencies_exist(&self) -> (r: ValidationResult)
        ensures
            r.errs() == missing_deps(self.reg(), self.reg().tools@),
            r.warnings@.len() == 0,
    {
        let reg = self.registry;
        let ghost r = *reg;
        let mut result = ValidationResult::ok();
        let mut i: usize = 0;
        while i < reg.tools.len()
            invariant
                i <= reg.tools@.len(),
                r == *reg,
                result.errs() == missing_deps(r, r.tools@.take(i as int)),
                result.warnings@.len() == 0,
            decreases reg.tools@.len() - i,
        {
            let tool = &reg.tools[i];
            let ghost base = result.errs();
            let mut j: usize = 0;
            while j < tool.depends.len()
                invariant
                    i < reg.tools@.len(),
                    r == *reg,
                    *tool == reg.tools@[i as int],
                    j <= tool.depends@.len(),
                    result.errs() == base + missing_in(r, tool.name@, tool.depends@.take(j as int)),
                    result.warnings@.len() == 0,
                decreases tool.depends@.len() - j,
            {
                let dep = &tool.depends[j];
                let exists = match dep.dep_type {
                    DependencyType::Tool => find_tool(&reg.tools, dep.name.as_str()).is_some(),
                    DependencyType::Agent => has_agent(&reg.agents, dep.name.as_str()),
                };
                proof {
                    if dep.dep_type == DependencyType::Tool {
                        if tool_names(r.tools@).contains(dep.name@) {
                            let k = choose|k: int| 0 <= k < tool_names(r.tools@).len() && tool_names(r.tools@)[k] == dep.name@;
                            assert(r.tools@[k].name@ == dep.name@);
                        }
                        if exists {
                            let k = choose|k: int| 0 <= k < r.tools@.len() && r.tools@[k].name@ == dep.name@;
                            assert(tool_names(r.tools@)[k] == dep.name@);
                        }
                    }
                }
                assert(exists == dep_exists(r, *dep));
                assert(tool.depends@.take(j + 1).drop_last() =~= tool.depends@.take(j as int));
                if !exists {
                    let dep_type = match dep.dep_type {
                        DependencyType::Tool => "tool".to_owned(),
                        DependencyType::Agent => "agent".to_owned(),
                    };
                    let e = ValidationError::MissingDependency {
                        tool: tool.name.clone(),
                        dependency: dep.name.clone(),
                        dep_type,
                    };
                    let ghost prev = result.errors@;
                    result.add_error(e);
                    assert(errors_view(prev.push(e)) =~= errors_view(prev).push(e@));
                }
                j = j + 1;
            }
            assert(tool.depends@.take(tool.depends@.len() as int) =~= tool.depends@);
            assert(r.tools@.take(i + 1).drop_last() =~= r.tools@.take(i as int));
            i = i + 1;
        }
        assert(r.tools@.take(r.tools@.len() as int) =~= r.tools@);
        result
    }
}

// ---------------------------------------------------------------------------
// Dependency cycles
// ---------------------------------------------------------------------------

/// What cycle detection reports: only cycle errors, each a path that ends with
/// the name it starts with and whose last step is a dependency; none exactly
/// when the tools' dependencies are acyclic; and, when there are some, a genuine
/// cycle first.
pub open spec fn cycle_report(tools: Seq<ToolDefinition>, errs: Seq<ErrorView>) -> bool {
    &&& forall|i: int| 0 <= i < errs.len() ==> errs[i] is DependencyCycle
    &&& forall|i: int|
        0 <= i < errs.len() ==> (#[trigger] errs[i] matches ErrorView::DependencyCycle(c) && closes_on_dependency(
            tools,
            c,
        ))
    &&& (errs.len() == 0 <==> !has_dep_cycle(tools))
    &&& errs.len() > 0 ==> (errs[0] matches ErrorView::DependencyCycle(c) && is_dep_cycle(tools, c))
}

/// The errors that report the cycles, in order.
pub open spec fn cycle_errors(cs: Seq<Seq<Seq<char>>>) -> Seq<ErrorView>
    decreases cs.len(),
{
    if cs.len() == 0 {
        Seq::empty()
    } else {
        seq![ErrorView::DependencyCycle(cs[0])] + cycle_errors(cs.drop_first())
    }
}

impl<'a> RegistryValidator<'a> {
    /// Errors for dependency cycles among the tools: exactly the paths that the
    /// depth-first search over the tools in order reports (`reported_cycles`).
    /// There are none exactly when the tools' dependencies are acyclic; the first
    /// one reported is a genuine cycle, and every reported path ends with the name
    /// it starts with, after a dependency step.
    pub fn validate_no_cycles(&self) -> (r: ValidationResult)
        ensures
            r.warnings@.len() == 0,
            r.errs() == cycle_errors(reported_cycles(self.reg().tools@)),
            cycle_report(self.reg().tools@, r.errs()),
    {
        let tools = &self.registry.tools;
        let n = tools.len();
        let mut marks: Vec<u8> = Vec::new();
        while marks.len() < n
            invariant
                marks@.len() <= n,
                forall|x: int| 0 <= x < marks@.len() ==> marks@[x] == 0,
            decreases n - marks@.len(),
        {
            marks.push(0);
        }
        let mut st = CycleSearch {
            marks,
            path: Vec::new(),
            order: Vec::new(),
            rank: Ghost(Seq::new(n as nat, |x: int| 0int)),
            clock: Ghost(0int),
        };
        let mut result = ValidationResult::ok();
        let mut i: usize = 0;
        assert(st.marks@ =~= unmarked(n as nat));
        assert(result.errs() =~= Seq::<ErrorView>::empty());
        assert(result.errs() + cycle_errors(search_all(tools@, 0, st.marks@, st.path@)) =~= cycle_errors(
            reported_cycles(tools@),
        ));
        while i < n
            invariant
                n == tools@.len(),
                i <= n,
                st.wf(tools@),
                result.errs() + cycle_errors(search_all(tools@, i as int, st.marks@, st.path@)) == cycle_errors(
                    reported_cycles(tools@),
                ),
                result.warnings@.len() == 0,
                forall|k: int| 0 <= k < result.errs().len() ==> (#[trigger] result.errs()[k]) is DependencyCycle,
                forall|k: int|
                    0 <= k < result.errs().len() ==> (#[trigger] result.errs()[k] matches ErrorView::DependencyCycle(c)
                        && closes_on_dependency(tools@, c)),
                result.errors@.len() == 0 ==> st.clean(tools@) && st.path@.len() == 0,
                result.errors@.len() == 0 ==> forall|x: int| 0 <= x < i && canonical(tools@, x) ==> #[trigger] st.marks@[x] == 2,
                result.errors@.len() > 0 ==> (result.errs()[0] matches ErrorView::DependencyCycle(c) && is_dep_cycle(tools@, c)),
            decreases n - i,
        {
            let ghost m_i = st.marks@;
            let ghost p_i = st.path@;
            let ghost e_i = result.errs();
            match find_tool(tools, tools[i].name.as_str()) {
                None => {},
                Some(c) => {
                    proof {
                        lemma_first_exists(tools@, tools@[i as int].name@, c as int);
                        lemma_first_unique(tools@, tools@[i as int].name@, c as int, first_index(tools@, tools@[i as int].name@));
                        assert(is_first_named(tools@, c as int, tools@[c as int].name@));
                        if canonical(tools@, i as int) {
                            lemma_first_unique(tools@, tools@[i as int].name@, i as int, c as int);
                        }
                    }
                    if st.marks[c] == 0 {
                        let ghost before = st.marks@;
                        let ghost had_errors = result.errors@.len() > 0;
                        match find_cycle_from(tools, c, &mut st) {
                            Some(cycle) => {
                                let ghost prev = result.errors@;
                                let e = ValidationError::DependencyCycle(cycle);
                                result.add_error(e);
                                proof {
                                    assert(errors_view(prev.push(e)) =~= errors_view(prev).push(e@));
                                    let cy = strings_view(cycle@);
                                    assert(cycle@.map_values(|s: String| s@) =~= cy);
                                    let rest = search_all(tools@, i + 1, st.marks@, st.path@);
                                    assert(search_all(tools@, i as int, m_i, p_i) == seq![cy] + rest);
                                    assert((seq![cy] + rest).drop_first() =~= rest);
                                    assert(cycle_errors(seq![cy] + rest) == seq![ErrorView::DependencyCycle(cy)] + cycle_errors(rest));
                                    assert(result.errs() + cycle_errors(rest) =~= e_i + cycle_errors(seq![cy] + rest));
                                    if !had_errors {
                                        assert(result.errs()[0] == e@);
                                    } else {
                                        assert(result.errs()[0] == errors_view(prev)[0]);
                                    }
                                }
                            },
                            None => {
                                proof {
                                    if !had_errors {
                                        assert forall|x: int| 0 <= x < i + 1 && canonical(tools@, x) implies #[trigger] st.marks@[x] == 2 by {
                                            if x < i {
                                                assert(before[x] == 2);
                                            }
                                        }
                                    }
                                }
                            },
                        }
                    } else {
                        proof {
                            if result.errors@.len() == 0 {
                                assert(!st.path@.contains(c));
                            }
                        }
                    }
                },
            }
            i = i + 1;
        }
        proof {
            if result.errors@.len() == 0 {
                lemma_ranked_acyclic(tools@, st.marks@, st.rank@);
            } else {
                let c = result.errs()[0]->DependencyCycle_0;
                assert(is_dep_cycle(tools@, c));
            }
        }
        result
    }
}

// ---------------------------------------------------------------------------
// Schema references
// ---------------------------------------------------------------------------

/// Adds the error for a `$ref` string naming no schema.
fn check_ref(reference: &String, tool_name: &str, names: &Vec<String>, result: &mut ValidationResult)
    ensures
        final(result).errs() == old(result).errs() + ref_error(
            tool_name@,
            JsonView::String(reference@),
            strings_view(names@),
        ),
        final(result).warnings@ == old(result).warnings@,
{
    assert(old(result).errs() + Seq::<ErrorView>::empty() =~= old(result).errs());
    let chars = str_to_chars(reference.as_str());
    let prefix = str_to_chars("#/schemas/");
    let ghost p = schema_ref_prefix();
    let plen = prefix.len();
    if chars.len() < plen {
        return ;
    }
    let mut k: usize = 0;
    while k < plen
        invariant
            k <= plen,
            plen == prefix@.len(),
            prefix@ == p,
            plen <= chars@.len(),
            p == schema_ref_prefix(),
            chars@ == reference@,
            *result == *old(result),
            forall|q: int| 0 <= q < k ==> chars@[q] == prefix@[q],
        decreases plen - k,
    {
        if chars[k] != prefix[k] {
            assert(chars@.take(plen as int)[k as int] != p[k as int]);
            return ;
        }
        k = k + 1;
    }
    assert(chars@.take(plen as int) =~= p);
    let name = slice_to_string(&chars, plen, chars.len());
    assert(name@ == chars@.skip(plen as int));
    if !contains_name(names, name.as_str()) {
        let e = ValidationError::MissingSchemaRef { tool: tool_name.to_owned(), reference: reference.clone() };
        let ghost prev = result.errors@;
        result.add_error(e);
        assert(errors_view(prev.push(e)) =~= errors_view(prev).push(e@));
    }
}

/// Adds the errors for the schema references anywhere inside `schema`.
fn check_schema_refs(schema: &JsonValue, tool_name: &str, names: &Vec<String>, result: &mut ValidationResult)
    ensures
        final(result).errs() == old(result).errs() + schema_errors(schema@, tool_name@, strings_view(names@)),
        final(result).warnings@ == old(result).warnings@,
    decreases schema,
{
    let ghost nv = strings_view(names@);
    match schema {
        JsonValue::Object(members) => {
            let ghost ms = members_view(members@);
            assert(schema@ == JsonView::Object(ms));
            match position_of_key(members, "$ref") {
                Some(i) => {
                    match &members[i].1 {
                        JsonValue::String(r) => {
                            check_ref(r, tool_name, names, result);
                        },
                        _ => {},
                    }
                    assert(ms[i as int].1 == members@[i as int].1@);
                },
                None => {},
            }
            let ghost base = result.errs();
            let mut k: usize = 0;
            while k < members.len()
                invariant
                    k <= members@.len(),
                    *schema == JsonValue::Object(*members),
                    ms == members_view(members@),
                    nv == strings_view(names@),
                    result.errs() == base + member_errors(ms.take(k as int), tool_name@, nv),
                    result.warnings@ == old(result).warnings@,
                decreases members@.len() - k,
            {
                assert(decreases_to!(*schema => (*schema)->Object_0));
                assert(decreases_to!(*members => members[k as int]));
                assert(decreases_to!(members[k as int] => members[k as int].1));
                check_schema_refs(&members[k].1, tool_name, names, result);
                assert(ms.take(k + 1).drop_last() =~= ms.take(k as int));
                assert(ms.take(k + 1).last().1 == members@[k as int].1@);
                k = k + 1;
            }
            assert(ms.take(members@.len() as int) =~= ms);
        },
        JsonValue::Array(items) => {
            let ghost xs = items_view(items@);
            assert(schema@ == JsonView::Array(xs));
            let ghost base = result.errs();
            let mut k: usize = 0;
            while k < items.len()
                invariant
                    k <= items@.len(),
                    *schema == JsonValue::Array(*items),
                    xs == items_view(items@),
                    nv == strings_view(names@),
                    result.errs() == base + item_errors(xs.take(k as int), tool_name@, nv),
                    result.warnings@ == old(result).warnings@,
                    base == old(result).errs(),
                decreases items@.len() - k,
            {
                assert(decreases_to!(*schema => (*schema)->Array_0));
                assert(decreases_to!(*items => items[k as int]));
                check_schema_refs(&items[k], tool_name, names, result);
                assert(xs.take(k + 1).drop_last() =~= xs.take(k as int));
                k = k + 1;
            }
            assert(xs.take(items@.len() as int) =~= xs);
        },
        _ => {
            assert(result.errs() =~= old(result).errs() + Seq::<ErrorView>::empty());
        },
    }
}

impl<'a> RegistryValidator<'a> {
    /// Errors for `$ref` values of the form `#/schemas/<name>`, anywhere in the
    /// tools' input and output schemas, that name no schema of the registry.
    pub fn validate_schema_refs(&self) -> (r: ValidationResult)
        ensures
            r.errs() == schema_ref_errors(self.reg().tools@, schema_names(self.reg())),
            r.warnings@.len() == 0,
    {
        let reg = self.registry;
        let ghost r = *reg;
        let mut names: Vec<String> = Vec::new();
        for s in it: reg.schemas.iter()
            invariant
                it.seq() == reg.schemas@.map_values(|x: crate::registry::Schema| &x),
                strings_view(names@) == schema_names(*reg).take(it.index() as int),
        {
            let ghost prev = names@;
            names.push(s.name.clone());
            assert(strings_view(names@) =~= strings_view(prev).push(s.name@));
            assert(schema_names(*reg).take(it.index() + 1) =~= schema_names(*reg).take(it.index() as int).push(s.name@));
        }
        assert(schema_names(*reg).take(reg.schemas@.len() as int) =~= schema_names(*reg));
        let ghost nv = strings_view(names@);
        let mut result = ValidationResult::ok();
        let mut i: usize = 0;
        while i < reg.tools.len()
            invariant
                i <= reg.tools@.len(),
                r == *reg,
                nv == strings_view(names@),
                nv == schema_names(r),
                result.errs() == schema_ref_errors(r.tools@.take(i as int), nv),
                result.warnings@.len() == 0,
            decreases reg.tools@.len() - i,
        {
            let tool = &reg.tools[i];
            let ghost base = result.errs();
            match &tool.input_schema {
                Some(sc) => check_schema_refs(sc, tool.name.as_str(), &names, &mut result),
                None => {},
            }
            let ghost mid = result.errs();
            match &tool.output_schema {
                Some(sc) => check_schema_refs(sc, tool.name.as_str(), &names, &mut result),
                None => {},
            }
            assert(result.errs() =~= base + tool_schema_errors(*tool, nv));
            assert(r.tools@.take(i + 1).drop_last() =~= r.tools@.take(i as int));
            i = i + 1;
        }
        assert(r.tools@.take(r.tools@.len() as int) =~= r.tools@);
        result
    }
}

// ---------------------------------------------------------------------------
// Deprecations
// ---------------------------------------------------------------------------

/// The deprecation notice of the last deprecated tool named `name`.
pub open spec fn deprecated_tool_notice(tools: Seq<ToolDefinition>, name: Seq<char>) -> Option<Seq<char>>
    decreases tools.len(),
{
    if tools.len() == 0 {
        None
    } else if tools.last().name@ == name && tools.last().deprecated is Some {
        Some(tools.last().deprecated->0@)
    } else {
        deprecated_tool_notice(tools.drop_last(), name)
    }
}

/// The deprecation message of the last deprecated server named `name`
/// ("deprecated" when it gives none).
pub open spec fn deprecated_server_notice(servers: Seq<Server>, name: Seq<char>) -> Option<Seq<char>>
    decreases servers.len(),
{
    if servers.len() == 0 {
        None
    } else if servers.last().name@ == name && servers.last().deprecated {
        Some(
            match servers.last().deprecation_message {
                Some(m) => m@,
                None => "deprecated"@,
            },
        )
    } else {
        deprecated_server_notice(servers.drop_last(), name)
    }
}

/// "Tool '<tool>' depends on deprecated tool '<dep>': <notice>"
pub open spec fn tool_dep_warning(tool: Seq<char>, dep: Seq<char>, notice: Seq<char>) -> Seq<char> {
    "Tool '"@ + tool + "' depends on deprecated tool '"@ + dep + "': "@ + notice
}

/// "Tool '<tool>' uses deprecated server '<server>': <notice>"
pub open spec fn server_warning_text(tool: Seq<char>, server: Seq<char>, notice: Seq<char>) -> Seq<char> {
    "Tool '"@ + tool + "' uses deprecated server '"@ + server + "': "@ + notice
}

/// A warning viewed: its message and the tool it concerns.
pub type WarningView = (Seq<char>, Option<Seq<char>>);

/// Warnings for the tool dependencies of `tool` on deprecated tools, in order.
pub open spec fn dep_warnings(all: Seq<ToolDefinition>, tool: Seq<char>, deps: Seq<Dependency>) -> Seq<WarningView>
    decreases deps.len(),
{
    if deps.len() == 0 {
        Seq::empty()
    } else {
        let rest = dep_warnings(all, tool, deps.drop_last());
        let d = deps.last();
        if d.dep_type == DependencyType::Tool && deprecated_tool_notice(all, d.name@) is Some {
            rest.push((tool_dep_warning(tool, d.name@, deprecated_tool_notice(all, d.name@)->0), Some(tool)))
        } else {
            rest
        }
    }
}

/// The number of tool dependencies on deprecated tools.
pub open spec fn deprecated_dep_count(all: Seq<ToolDefinition>, deps: Seq<Dependency>) -> nat
    decreases deps.len(),
{
    if deps.len() == 0 {
        0
    } else {
        deprecated_dep_count(all, deps.drop_last()) + if deps.last().dep_type == DependencyType::Tool
            && deprecated_tool_notice(all, deps.last().name@) is Some {
            1nat
        } else {
            0nat
        }
    }
}

/// A tool gets one deprecation warning for each of its tool dependencies on a
/// deprecated tool, and each of them concerns that tool.
pub proof fn law_dependency_warnings(all: Seq<ToolDefinition>, tool: Seq<char>, deps: Seq<Dependency>)
    ensures
        dep_warnings(all, tool, deps).len() == deprecated_dep_count(all, deps),
        forall|k: int| 0 <= k < dep_warnings(all, tool, deps).len() ==> (#[trigger] dep_warnings(all, tool, deps)[k]).1 == Some(tool),
    decreases deps.len(),
{
    if deps.len() > 0 {
        law_dependency_warnings(all, tool, deps.drop_last());
        let rest = dep_warnings(all, tool, deps.drop_last());
        assert forall|k: int| 0 <= k < dep_warnings(all, tool, deps).len() implies (#[trigger] dep_warnings(all, tool, deps)[k]).1 == Some(tool) by {
            if k < rest.len() {
                assert(dep_warnings(all, tool, deps)[k] == rest[k]);
            }
        }
    }
}

/// The warning for a virtual tool whose target server is deprecated.
pub open spec fn server_warnings(servers: Seq<Server>, t: ToolDefinition) -> Seq<WarningView> {
    match t.implementation {
        ToolImplementation::Source(src) => match deprecated_server_notice(servers, src.target@) {
            Some(notice) => seq![(server_warning_text(t.name@, src.target@, notice), Some(t.name@))],
            None => Seq::empty(),
        },
        _ => Seq::empty(),
    }
}

/// Deprecation warnings of the given tools, in order: for each tool, those of its
/// dependencies, then that of its server.
pub open spec fn deprecation_warnings(reg: Registry, tools: Seq<ToolDefinition>) -> Seq<WarningView>
    decreases tools.len(),
{
    if tools.len() == 0 {
        Seq::empty()
    } else {
        let t = tools.last();
        deprecation_warnings(reg, tools.drop_last()) + dep_warnings(reg.tools@, t.name@, t.depends@)
            + server_warnings(reg.servers@, t)
    }
}

/// The deprecation notice of the last deprecated tool named `name`.
fn find_deprecated_tool(tools: &Vec<ToolDefinition>, name: &str) -> (r: Option<String>)
    ensures
        match r {
            Some(m) => deprecated_tool_notice(tools@, name@) == Some(m@),
            None => deprecated_tool_notice(tools@, name@) is None,
        },
{
    let mut i = tools.len();
    assert(tools@.take(i as int) =~= tools@);
    while i > 0
        invariant
            i <= tools@.len(),
            deprecated_tool_notice(tools@, name@) == deprecated_tool_notice(tools@.take(i as int), name@),
        decreases i,
    {
        let t = &tools[i - 1];
        assert(tools@.take(i as int).drop_last() =~= tools@.take(i - 1));
        assert(tools@.take(i as int).last() == tools@[i - 1]);
        if str_eq(t.name.as_str(), name) {
            match &t.deprecated {
                Some(m) => {
                    return Some(m.clone());
                },
                None => {},
            }
        }
        i = i - 1;
    }
    None
}

/// The deprecation message of the last deprecated server named `name`.
fn find_deprecated_server(servers: &Vec<crate::registry::Server>, name: &str) -> (r: Option<String>)
    ensures
        match r {
            Some(m) => deprecated_server_notice(servers@, name@) == Some(m@),
            None => deprecated_server_notice(servers@, name@) is None,
        },
{
    let mut i = servers.len();
    assert(servers@.take(i as int) =~= servers@);
    while i > 0
        invariant
            i <= servers@.len(),
            deprecated_server_notice(servers@, name@) == deprecated_server_notice(servers@.take(i as int), name@),
        decreases i,
    {
        let sv = &servers[i - 1];
        assert(servers@.take(i as int).drop_last() =~= servers@.take(i - 1));
        assert(servers@.take(i as int).last() == servers@[i - 1]);
        if sv.deprecated && str_eq(sv.name.as_str(), name) {
            return match &sv.deprecation_message {
                Some(m) => Some(m.clone()),
                None => Some("deprecated".to_owned()),
            };
        }
        i = i - 1;
    }
    None
}

/// Joins five pieces of text.
fn join5(a: &str, b: &str, c: &str, d: &str, e: &str) -> (r: String)
    ensures
        r@ == a@ + b@ + c@ + d@ + e@,
{
    let s = concat_str(a, b);
    let s = concat_str(s.as_str(), c);
    let s = concat_str(s.as_str(), d);
    concat_str(s.as_str(), e)
}

impl<'a> RegistryValidator<'a> {
    /// Warnings for tool dependencies on deprecated tools and for virtual tools
    /// whose server is deprecated, in the order of the tools.
    pub fn validate_deprecations(&self) -> (r: ValidationResult)
        ensures
            r.errors@.len() == 0,
            r.warns() == deprecation_warnings(self.reg(), self.reg().tools@),
    {
        let reg = self.registry;
        let ghost r = *reg;
        let mut result = ValidationResult::ok();
        let mut i: usize = 0;
        while i < reg.tools.len()
            invariant
                i <= reg.tools@.len(),
                r == *reg,
                result.warns() == deprecation_warnings(r, r.tools@.take(i as int)),
                result.errors@.len() == 0,
            decreases reg.tools@.len() - i,
        {
            let tool = &reg.tools[i];
            let ghost base = result.warns();
            let mut j: usize = 0;
            while j < tool.depends.len()
                invariant
                    i < reg.tools@.len(),
                    r == *reg,
                    *tool == reg.tools@[i as int],
                    j <= tool.depends@.len(),
                    result.warns() == base + dep_warnings(r.tools@, tool.name@, tool.depends@.take(j as int)),
                    result.errors@.len() == 0,
                decreases tool.depends@.len() - j,
            {
                let dep = &tool.depends[j];
                assert(tool.depends@.take(j + 1).drop_last() =~= tool.depends@.take(j as int));
                assert(tool.depends@.take(j + 1).last() == *dep);
                if dep.dep_type == DependencyType::Tool {
                    match find_deprecated_tool(&reg.tools, dep.name.as_str()) {
                        Some(msg) => {
                            let text = join5(
                                "Tool '",
                                tool.name.as_str(),
                                "' depends on deprecated tool '",
                                dep.name.as_str(),
                                "': ",
                            );
                            let text = concat_str(text.as_str(), msg.as_str());
                            let w = ValidationWarning { message: text, tool: Some(tool.name.clone()) };
                            let ghost prev = result.warnings@;
                            result.add_warning(w);
                            assert(warnings_view(prev.push(w)) =~= warnings_view(prev).push(warning_view(w)));
                        },
                        None => {},
                    }
                }
                j = j + 1;
            }
            assert(tool.depends@.take(tool.depends@.len() as int) =~= tool.depends@);
            let ghost mid = result.warns();
            match &tool.implementation {
                ToolImplementation::Source(src) => {
                    match find_deprecated_server(&reg.servers, src.target.as_str()) {
                        Some(msg) => {
                            let text = join5(
                                "Tool '",
                                tool.name.as_str(),
                                "' uses deprecated server '",
                                src.target.as_str(),
                                "': ",
                            );
                            let text = concat_str(text.as_str(), msg.as_str());
                            let w = ValidationWarning { message: text, tool: Some(tool.name.clone()) };
                            let ghost prev = result.warnings@;
                            result.add_warning(w);
                            assert(warnings_view(prev.push(w)) =~= warnings_view(prev).push(warning_view(w)));
                        },
                        None => {},
                    }
                },
                _ => {},
            }
            assert(result.warns() =~= mid + server_warnings(r.servers@, *tool));
            assert(r.tools@.take(i + 1).drop_last() =~= r.tools@.take(i as int));
            i = i + 1;
        }
        assert(r.tools@.take(r.tools@.len() as int) =~= r.tools@);
        result
    }
}

// ---------------------------------------------------------------------------
// Version constraints
// ---------------------------------------------------------------------------

/// Comparison of a version constraint.
#[derive(Debug, Clone, Copy, PartialEq, Eq, Structural)]
pub enum VersionOp {
    Ge,
    Le,
    Gt,
    Lt,
    Eq,
}

/// The comparison of a constraint and the version text after it: `>=`, `<=`, `>`,
/// `<` or `=` as a prefix, an exact match otherwise.
pub open spec fn split_constraint(c: Seq<char>) -> (VersionOp, Seq<char>) {
    if c.len() >= 2 && c[0] == '>' && c[1] == '=' {
        (VersionOp::Ge, c.skip(2))
    } else if c.len() >= 2 && c[0] == '<' && c[1] == '=' {
        (VersionOp::Le, c.skip(2))
    } else if c.len() >= 1 && c[0] == '>' {
        (VersionOp::Gt, c.skip(1))
    } else if c.len() >= 1 && c[0] == '<' {
        (VersionOp::Lt, c.skip(1))
    } else if c.len() >= 1 && c[0] == '=' {
        (VersionOp::Eq, c.skip(1))
    } else {
        (VersionOp::Eq, c)
    }
}

/// The values of the pieces that read as a `u32`, in order.
pub open spec fn u32_parts(segs: Seq<Seq<char>>) -> Seq<int>
    decreases segs.len(),
{
    if segs.len() == 0 {
        Seq::empty()
    } else {
        let p = u32_parts(segs.drop_last());
        let x = segs.last();
        if parses_unsigned(x, u32::MAX as int) {
            p.push(digits_value(unsigned_digits(x)))
        } else {
            p
        }
    }
}

/// The `i`-th part, or 0.
pub open spec fn part_or_zero(p: Seq<int>, i: int) -> int {
    if 0 <= i < p.len() {
        p[i]
    } else {
        0
    }
}

/// A version as (major, minor, patch): the first three dot-separated pieces that
/// read as numbers, 0 for those missing.
pub open spec fn version_triple(s: Seq<char>) -> (int, int, int) {
    let p = u32_parts(dot_segments(s));
    (part_or_zero(p, 0), part_or_zero(p, 1), part_or_zero(p, 2))
}

/// Lexicographic order of version triples.
pub open spec fn triple_lt(a: (int, int, int), b: (int, int, int)) -> bool {
    a.0 < b.0 || (a.0 == b.0 && (a.1 < b.1 || (a.1 == b.1 && a.2 < b.2)))
}

/// Whether version `actual` satisfies `constraint`.
pub open spec fn satisfies(actual: Seq<char>, constraint: Seq<char>) -> bool {
    let (op, req) = split_constraint(constraint);
    let a = version_triple(actual);
    let r = version_triple(req);
    match op {
        VersionOp::Ge => !triple_lt(a, r),
        VersionOp::Le => !triple_lt(r, a),
        VersionOp::Gt => triple_lt(r, a),
        VersionOp::Lt => triple_lt(a, r),
        VersionOp::Eq => a == r,
    }
}

/// The version of the last tool named `name` that declares one.
pub open spec fn tool_version(tools: Seq<ToolDefinition>, name: Seq<char>) -> Option<Seq<char>>
    decreases tools.len(),
{
    if tools.len() == 0 {
        None
    } else if tools.last().name@ == name && tools.last().version is Some {
        Some(tools.last().version->0@)
    } else {
        tool_version(tools.drop_last(), name)
    }
}

/// Version errors for the dependencies of one tool, in order.
pub open spec fn version_errors_in(all: Seq<ToolDefinition>, tool: Seq<char>, deps: Seq<Dependency>) -> Seq<ErrorView>
    decreases deps.len(),
{
    if deps.len() == 0 {
        Seq::empty()
    } else {
        let rest = version_errors_in(all, tool, deps.drop_last());
        let d = deps.last();
        if d.dep_type == DependencyType::Tool && d.version is Some && tool_version(all, d.name@) is Some
            && !satisfies(tool_version(all, d.name@)->0, d.version->0@) {
            rest.push(
                ErrorView::VersionMismatch {
                    tool,
                    dependency: d.name@,
                    dep_type: "tool"@,
                    required: d.version->0@,
                    found: tool_version(all, d.name@)->0,
                },
            )
        } else {
            rest
        }
    }
}

/// Version errors of the given tools, in order.
pub open spec fn version_errors(all: Seq<ToolDefinition>, tools: Seq<ToolDefinition>) -> Seq<ErrorView>
    decreases tools.len(),
{
    if tools.len() == 0 {
        Seq::empty()
    } else {
        version_errors(all, tools.drop_last()) + version_errors_in(all, tools.last().name@, tools.last().depends@)
    }
}

/// The version of the last tool named `name` that declares one.
pub(crate) fn find_tool_version(tools: &Vec<ToolDefinition>, name: &str) -> (r: Option<String>)
    ensures
        match r {
            Some(v) => tool_version(tools@, name@) == Some(v@),
            None => tool_version(tools@, name@) is None,
        },
{
    let mut i = tools.len();
    assert(tools@.take(i as int) =~= tools@);
    while i > 0
        invariant
            i <= tools@.len(),
            tool_version(tools@, name@) == tool_version(tools@.take(i as int), name@),
        decreases i,
    {
        let t = &tools[i - 1];
        assert(tools@.take(i as int).drop_last() =~= tools@.take(i - 1));
        assert(tools@.take(i as int).last() == tools@[i - 1]);
        if str_eq(t.name.as_str(), name) {
            match &t.version {
                Some(v) => {
                    return Some(v.clone());
                },
                None => {},
            }
        }
        i = i - 1;
    }
    None
}

/// Reads `chars[from..to]` as a `u32`, as `str::parse::<u32>` does.
fn parse_u32_piece(chars: &Vec<char>, from: usize, to: usize) -> (r: Option<u32>)
    requires
        from <= to <= chars@.len(),
    ensures
        r is Some <==> parses_unsigned(chars@.subrange(from as int, to as int), u32::MAX as int),
        r matches Some(n) ==> n == digits_value(unsigned_digits(chars@.subrange(from as int, to as int))),
{
    match parse_u64_chars(chars.as_slice(), from, to) {
        Some(v) => {
            if v <= 4294967295u64 {
                Some(v as u32)
            } else {
                None
            }
        },
        None => None,
    }
}

/// Whether version `actual` satisfies `constraint`: `>=`, `<=`, `>`, `<` or `=`
/// followed by a version, or a version to match exactly.
pub fn constraint_satisfied(actual: &str, constraint: &str) -> (r: bool)
    ensures
        r == satisfies(actual@, constraint@),
{
    let c = str_to_chars(constraint);
    let n = c.len();
    let (op, from) = if n >= 2 && c[0] == '>' && c[1] == '=' {
        (VersionOp::Ge, 2)
    } else if n >= 2 && c[0] == '<' && c[1] == '=' {
        (VersionOp::Le, 2)
    } else if n >= 1 && c[0] == '>' {
        (VersionOp::Gt, 1)
    } else if n >= 1 && c[0] == '<' {
        (VersionOp::Lt, 1)
    } else if n >= 1 && c[0] == '=' {
        (VersionOp::Eq, 1)
    } else {
        (VersionOp::Eq, 0)
    };
    let rest = slice_to_string(&c, from, n);
    assert(rest@ == split_constraint(constraint@).1);
    assert(op == split_constraint(constraint@).0);
    let a = RegistryValidator::parse_version(actual);
    let q = RegistryValidator::parse_version(rest.as_str());
    let a_lt_q = a.0 < q.0 || (a.0 == q.0 && (a.1 < q.1 || (a.1 == q.1 && a.2 < q.2)));
    let q_lt_a = q.0 < a.0 || (q.0 == a.0 && (q.1 < a.1 || (q.1 == a.1 && q.2 < a.2)));
    match op {
        VersionOp::Ge => !a_lt_q,
        VersionOp::Le => !q_lt_a,
        VersionOp::Gt => q_lt_a,
        VersionOp::Lt => a_lt_q,
        VersionOp::Eq => a.0 == q.0 && a.1 == q.1 && a.2 == q.2,
    }
}

impl<'a> RegistryValidator<'a> {
    /// A version as (major, minor, patch): the first three dot-separated pieces
    /// that read as `u32`, 0 for those missing.
    pub fn parse_version(version: &str) -> (r: (u32, u32, u32))
        ensures
            (r.0 as int, r.1 as int, r.2 as int) == version_triple(version@),
    {
        let chars = str_to_chars(version);
        let ghost s = chars@;
        let mut parts: Vec<u32> = Vec::new();
        let ghost mut done: Seq<Seq<char>> = Seq::empty();
        let mut start: usize = 0;
        let mut k: usize = 0;
        assert(s.take(0) =~= Seq::<char>::empty());
        assert(s.subrange(0, 0) =~= Seq::<char>::empty());
        assert(dot_segments(Seq::<char>::empty()) =~= Seq::<Seq<char>>::empty().push(Seq::<char>::empty()));
        while k < chars.len()
            invariant
                s == chars@,
                start <= k <= chars@.len(),
                dot_segments(s.take(k as int)) == done.push(s.subrange(start as int, k as int)),
                parts@.map_values(|x: u32| x as int) == u32_parts(done),
            decreases chars@.len() - k,
        {
            let ghost prev = s.take(k as int);
            assert(s.take(k + 1).drop_last() =~= prev);
            assert(s.take(k + 1).last() == s[k as int]);
            if chars[k] == '.' {
                let piece = parse_u32_piece(&chars, start, k);
                let ghost seg = s.subrange(start as int, k as int);
                match piece {
                    Some(v) => {
                        let ghost pp = parts@;
                        parts.push(v);
                        assert(parts@.map_values(|x: u32| x as int) =~= pp.map_values(|x: u32| x as int).push(v as int));
                    },
                    None => {},
                }
                proof {
                    assert(done.push(seg).drop_last() =~= done);
                    done = done.push(seg);
                    assert(s.subrange(k + 1, k + 1) =~= Seq::<char>::empty());
                }
                start = k + 1;
            } else {
                proof {
                    let p = done.push(s.subrange(start as int, k as int));
                    assert(s.subrange(start as int, k + 1) =~= s.subrange(start as int, k as int).push(s[k as int]));
                    assert(p.update(p.len() - 1, p.last().push(s[k as int])) =~= done.push(
                        s.subrange(start as int, k + 1),
                    ));
                }
            }
            k = k + 1;
        }
        let piece = parse_u32_piece(&chars, start, chars.len());
        match piece {
            Some(v) => {
                let ghost pp = parts@;
                parts.push(v);
                assert(parts@.map_values(|x: u32| x as int) =~= pp.map_values(|x: u32| x as int).push(v as int));
            },
            None => {},
        }
        proof {
            let seg = s.subrange(start as int, chars@.len() as int);
            assert(s.take(chars@.len() as int) =~= s);
            assert(done.push(seg).drop_last() =~= done);
        }
        let ghost pv = parts@.map_values(|x: u32| x as int);
        let a = if parts.len() > 0 { parts[0] } else { 0 };
        let b = if parts.len() > 1 { parts[1] } else { 0 };
        let c = if parts.len() > 2 { parts[2] } else { 0 };
        assert(parts.len() > 0 ==> pv[0] == parts@[0] as int);
        assert(parts.len() > 1 ==> pv[1] == parts@[1] as int);
        assert(parts.len() > 2 ==> pv[2] == parts@[2] as int);
        (a, b, c)
    }

    /// Whether version `actual` satisfies `constraint`: `>=`, `<=`, `>`, `<` or `=`
    /// followed by a version, or a version to match exactly.
    pub fn version_satisfies(&self, actual: &str, constraint: &str) -> (r: bool)
        ensures
            r == satisfies(actual@, constraint@),
    {
        constraint_satisfied(actual, constraint)
    }


    /// Errors for tool dependencies whose version constraint the depended-on
    /// tool's declared version does not satisfy, in order.
    pub fn validate_version_constraints(&self) -> (r: ValidationResult)
        ensures
            r.errs() == version_errors(self.reg().tools@, self.reg().tools@),
            r.warnings@.len() == 0,
    {
        let reg = self.registry;
        let ghost r = *reg;
        let mut result = ValidationResult::ok();
        let mut i: usize = 0;
        while i < reg.tools.len()
            invariant
                i <= reg.tools@.len(),
                r == *reg,
                *self.registry == r,
                result.errs() == version_errors(r.tools@, r.tools@.take(i as int)),
                result.warnings@.len() == 0,
            decreases reg.tools@.len() - i,
        {
            let tool = &reg.tools[i];
            let ghost base = result.errs();
            let mut j: usize = 0;
            while j < tool.depends.len()
                invariant
                    i < reg.tools@.len(),
                    r == *reg,
                    *self.registry == r,
                    *tool == reg.tools@[i as int],
                    j <= tool.depends@.len(),
                    result.errs() == base + version_errors_in(r.tools@, tool.name@, tool.depends@.take(j as int)),
                    result.warnings@.len() == 0,
                decreases tool.depends@.len() - j,
            {
                let dep = &tool.depends[j];
                assert(tool.depends@.take(j + 1).drop_last() =~= tool.depends@.take(j as int));
                assert(tool.depends@.take(j + 1).last() == *dep);
                if dep.dep_type == DependencyType::Tool {
                    match &dep.version {
                        Some(required) => {
                            match find_tool_version(&reg.tools, dep.name.as_str()) {
                                Some(actual) => {
                                    if !self.version_satisfies(actual.as_str(), required.as_str()) {
                                        let e = ValidationError::VersionMismatch {
                                            tool: tool.name.clone(),
                                            dependency: dep.name.clone(),
                                            dep_type: "tool".to_owned(),
                                            required: required.clone(),
                                            found: actual,
                                        };
                                        let ghost prev = result.errors@;
                                        result.add_error(e);
                                        assert(errors_view(prev.push(e)) =~= errors_view(prev).push(e@));
                                    }
                                },
                                None => {},
                            }
                        },
                        None => {},
                    }
                }
                j = j + 1;
            }
            assert(tool.depends@.take(tool.depends@.len() as int) =~= tool.depends@);
            assert(r.tools@.take(i + 1).drop_last() =~= r.tools@.take(i as int));
            i = i + 1;
        }
        assert(r.tools@.take(r.tools@.len() as int) =~= r.tools@);
        result
    }
}

// ---------------------------------------------------------------------------
// Full validation
// ---------------------------------------------------------------------------

/// What full validation reports: the errors of duplicate names and missing
/// dependencies, then the cycles that cycle detection reports, then the errors
/// of schema references and version constraints; and the deprecation warnings.
pub open spec fn full_report(reg: Registry, errs: Seq<ErrorView>, warns: Seq<WarningView>) -> bool {
    let front = duplicate_name_errors(reg) + missing_deps(reg, reg.tools@);
    let back = schema_ref_errors(reg.tools@, schema_names(reg)) + version_errors(reg.tools@, reg.tools@);
    &&& errs == front + cycle_errors(reported_cycles(reg.tools@)) + back
    &&& cycle_report(reg.tools@, cycle_errors(reported_cycles(reg.tools@)))
    &&& warns == deprecation_warnings(reg, reg.tools@)
}

impl<'a> RegistryValidator<'a> {
    /// Runs every check and gathers their errors and warnings: duplicate names,
    /// missing dependencies, cycles, schema references, deprecations and version
    /// constraints, in that order.
    pub fn validate(&self) -> (r: ValidationResult)
        ensures
            full_report(self.reg(), r.errs(), r.warns()),
    {
        let mut result = ValidationResult::ok();
        let unique = self.validate_unique_names();
        let ghost e1 = unique.errs();
        result.absorb(unique);
        let deps = self.validate_dependencies_exist();
        let ghost e2 = deps.errs();
        result.absorb(deps);
        let cycles = self.validate_no_cycles();
        let ghost e3 = cycles.errs();
        result.absorb(cycles);
        let schemas = self.validate_schema_refs();
        let ghost e4 = schemas.errs();
        result.absorb(schemas);
        let deprecations = self.validate_deprecations();
        let ghost w5 = deprecations.warns();
        result.absorb(deprecations);
        let versions = self.validate_version_constraints();
        let ghost e6 = versions.errs();
        result.absorb(versions);
        proof {
            let reg = self.reg();
            let front = duplicate_name_errors(reg) + missing_deps(reg, reg.tools@);
            let back = schema_ref_errors(reg.tools@, schema_names(reg)) + version_errors(reg.tools@, reg.tools@);
            let errs = result.errs();
            assert(errs =~= front + e3 + back);
            assert(result.warns() =~= w5);
        }
        result
    }
}

/// Validates a registry: every check, as `RegistryValidator::validate` runs them.
pub fn validate_registry(registry: &Registry) -> (r: ValidationResult)
    ensures
        full_report(*registry, r.errs(), r.warns()),
{
    RegistryValidator::new(registry).validate()
}

/// A registry passes full validation exactly when it has no duplicate names, no
/// missing dependencies, no dependency cycle, no dangling schema reference and no
/// unsatisfied version constraint.
pub proof fn law_validation_passes_iff(reg: Registry, errs: Seq<ErrorView>, warns: Seq<WarningView>)
    requires
        full_report(reg, errs, warns),
    ensures
        errs.len() == 0 <==> {
            &&& duplicate_name_errors(reg).len() == 0
            &&& missing_deps(reg, reg.tools@).len() == 0
            &&& !has_dep_cycle(reg.tools@)
            &&& schema_ref_errors(reg.tools@, schema_names(reg)).len() == 0
            &&& version_errors(reg.tools@, reg.tools@).len() == 0
        },
{
    let front = duplicate_name_errors(reg) + missing_deps(reg, reg.tools@);
    let back = schema_ref_errors(reg.tools@, schema_names(reg)) + version_errors(reg.tools@, reg.tools@);
    let mid = cycle_errors(reported_cycles(reg.tools@));
    assert(errs.len() == front.len() + mid.len() + back.len());
}

} // verus!

//! Registry of tool definitions: virtual tools, compositions, and the schemas,
//! servers and agents that they refer to.
//!
//! Maps of the wire format are kept as vectors of (key, value) pairs.
use vstd::prelude::*;
use crate::json::{JsonValue, members_view, spec_insert, object_insert};
use crate::text::{str_eq, concat_str};
use crate::transform::FieldSource;

verus! {

/// Reusable JSON Schema that tools can reference.
#[derive(Debug)]
pub struct Schema {
    /// Schema name (used in $ref, e.g., "SearchQuery")
    pub name: String,
    /// Semantic version of this schema
    pub version: Option<String>,
    /// Human-readable description
    pub description: Option<String>,
    /// The JSON Schema definition
    pub schema: JsonValue,
    /// Schema metadata
    pub metadata: Vec<(String, JsonValue)>,
}

/// An inline schema or a reference to a named schema.
#[derive(Debug)]
pub enum SchemaRef {
    Inline(JsonValue),
    Ref(String),
}

/// A backend MCP server with version information.
#[derive(Debug)]
pub struct Server {
    /// Server name
    pub name: String,
    /// Semantic version of this server
    pub version: Option<String>,
    /// Human-readable description
    pub description: Option<String>,
    /// Tools provided by this server
    pub provides: Vec<ToolProvision>,
    /// Whether this server is deprecated
    pub deprecated: bool,
    /// Deprecation message explaining migration path
    pub deprecation_message: Option<String>,
    /// Server metadata
    pub metadata: Vec<(String, JsonValue)>,
}

/// A tool provided by a server.
#[derive(Debug, Clone, PartialEq, Eq)]
pub struct ToolProvision {
    /// Tool name as exposed by the server
    pub tool: String,
    /// Tool version
    pub version: Option<String>,
}

/// An agent, in the shape of an A2A AgentCard.
#[derive(Debug)]
pub struct AgentDefinition {
    /// Unique agent name/identifier
    pub name: String,
    /// Semantic version of this agent
    pub version: Option<String>,
    /// Human-readable description
    pub description: Option<String>,
    /// A2A endpoint URL
    pub url: Option<String>,
    /// A2A protocol version supported
    pub protocol_version: Option<String>,
    /// Default input content types accepted
    pub default_input_modes: Vec<String>,
    /// Default output content types produced
    pub default_output_modes: Vec<String>,
    /// Skills/capabilities this agent exposes
    pub skills: Vec<AgentSkillDefinition>,
    /// Agent capabilities
    pub capabilities: Option<AgentCapabilities>,
    /// Provider information
    pub provider: Option<AgentProvider>,
    /// Agent metadata
    pub metadata: Vec<(String, JsonValue)>,
}

/// A capability that an agent exposes.
#[derive(Debug)]
pub struct AgentSkillDefinition {
    pub id: String,
    pub name: Option<String>,
    pub description: Option<String>,
    pub tags: Vec<String>,
    pub examples: Vec<String>,
    pub input_modes: Vec<String>,
    pub output_modes: Vec<String>,
    pub input_schema: Option<SchemaRef>,
    pub output_schema: Option<SchemaRef>,
}

/// What an agent supports.
#[derive(Debug)]
pub struct AgentCapabilities {
    pub streaming: Option<bool>,
    pub push_notifications: Option<bool>,
    pub state_transition_history: Option<bool>,
    pub extensions: Vec<AgentExtension>,
}

/// A protocol extension of an agent.
#[derive(Debug)]
pub struct AgentExtension {
    pub uri: String,
    pub description: Option<String>,
    pub required: Option<bool>,
    pub params: Option<JsonValue>,
}

/// Who provides an agent.
#[derive(Debug, Clone, PartialEq, Eq)]
pub struct AgentProvider {
    /// Organization name
    pub organization: String,
    /// Organization URL
    pub url: Option<String>,
}

/// Whether a dependency is a tool or an agent.
#[derive(Debug, Clone, Copy, PartialEq, Eq, Structural)]
pub enum DependencyType {
    Tool,
    Agent,
}

impl Default for DependencyType {
    fn default() -> (r: DependencyType)
        ensures
            r == DependencyType::Tool,
    {
        DependencyType::Tool
    }
}

/// A versioned dependency on a tool or agent.
#[derive(Debug, Clone, PartialEq, Eq)]
pub struct Dependency {
    /// Type of dependency (tool or agent)
    pub dep_type: DependencyType,
    /// Name of the required tool or agent
    pub name: String,
    /// Semantic version requirement
    pub version: Option<String>,
    /// For agent dependencies: specific skill to invoke
    pub skill: Option<String>,
}

/// A virtual tool: adapts a single backend tool.
#[derive(Debug)]
pub struct SourceTool {
    /// Target name (MCP server/backend name)
    pub target: String,
    /// Original tool name on that target
    pub tool: String,
    /// Fields to inject at call time
    pub defaults: Vec<(String, JsonValue)>,
    /// Fields to remove from schema
    pub hide_fields: Vec<String>,
    /// Server version for versioned routing
    pub server_version: Option<String>,
}

/// A composition, as far as the registry's own checks read it: the name of its
/// pattern and the tools it references, in order.
#[derive(Debug, Clone, PartialEq, Eq)]
pub struct CompositionSpec {
    pub pattern_name: String,
    pub referenced_tools: Vec<String>,
}

/// Tool implementation - either source-based (1:1) or composition (N:1).
#[derive(Debug)]
pub enum ToolImplementation {
    Source(SourceTool),
    Spec(CompositionSpec),
}

/// A tool definition - a virtual tool or a composition.
#[derive(Debug)]
pub struct ToolDefinition {
    /// Name exposed to agents
    pub name: String,
    /// Optional description
    pub description: Option<String>,
    /// Tool implementation
    pub implementation: ToolImplementation,
    /// Output transformation: the fields of the answer and their sources
    pub output_transform: Option<Vec<(String, FieldSource)>>,
    /// Input schema override (JSON Schema)
    pub input_schema: Option<JsonValue>,
    /// Output schema (JSON Schema)
    pub output_schema: Option<JsonValue>,
    /// Semantic version of this tool definition
    pub version: Option<String>,
    /// Arbitrary metadata
    pub metadata: Vec<(String, JsonValue)>,
    /// Tags for categorization and discovery
    pub tags: Vec<String>,
    /// Deprecation notice - if set, tool is deprecated
    pub deprecated: Option<String>,
    /// Dependencies this tool requires
    pub depends: Vec<Dependency>,
}

/// A registry of tools.
#[derive(Debug)]
pub struct Registry {
    /// Schema version for compatibility (e.g., "2.0")
    pub schema_version: String,
    /// Tool definitions
    pub tools: Vec<ToolDefinition>,
    /// Reusable JSON Schema definitions
    pub schemas: Vec<Schema>,
    /// Backend server declarations
    pub servers: Vec<Server>,
    /// Agent definitions
    pub agents: Vec<AgentDefinition>,
    /// Registry-level metadata
    pub metadata: Vec<(String, JsonValue)>,
}

/// Source backend tool reference (legacy format).
#[derive(Debug, Clone, PartialEq, Eq)]
pub struct ToolSource {
    pub target: String,
    pub tool: String,
}

/// Output transformation schema (legacy format).
#[derive(Debug, Clone, PartialEq, Eq)]
pub struct OutputSchema {
    /// Schema type (typically "object")
    pub schema_type: String,
    /// Field definitions with JSONPath mappings
    pub properties: Vec<(String, OutputField)>,
}

/// Output field definition (legacy format).
#[derive(Debug, Clone, PartialEq, Eq)]
pub struct OutputField {
    /// JSON Schema type (string, number, boolean, object, array)
    pub field_type: String,
    /// JSONPath expression to extract value from backend response
    pub source_field: Option<String>,
    /// Optional description for the field
    pub description: Option<String>,
}

/// The schema version of a registry that does not state one: "1.0".
pub fn default_schema_version() -> (r: String)
    ensures
        r@ == "1.0"@,
{
    "1.0".to_owned()
}

/// The schema type of an output schema that does not state one: "object".
pub fn default_object_type() -> (r: String)
    ensures
        r@ == "object"@,
{
    "object".to_owned()
}

impl OutputSchema {
    /// An object output schema with the given properties.
    pub fn new(properties: Vec<(String, OutputField)>) -> (r: OutputSchema)
        ensures
            r.schema_type@ == "object"@,
            r.properties == properties,
    {
        OutputSchema { schema_type: default_object_type(), properties }
    }
}

impl OutputField {
    /// A field read from the backend response at a JSONPath.
    pub fn new(field_type: String, source_field: String) -> (r: OutputField)
        ensures
            r.field_type == field_type,
            r.source_field == Some(source_field),
            r.description is None,
    {
        OutputField { field_type, source_field: Some(source_field), description: None }
    }

    /// A field passed through under its own name.
    pub fn passthrough(field_type: String) -> (r: OutputField)
        ensures
            r.field_type == field_type,
            r.source_field is None,
            r.description is None,
    {
        OutputField { field_type, source_field: None, description: None }
    }
}

/// A virtual tool in the legacy format: a backend tool under another name, with
/// defaults, hidden fields and an output schema of JSONPath fields.
#[derive(Debug)]
pub struct LegacyVirtualToolDef {
    /// Name exposed to agents
    pub name: String,
    /// Source backend tool mapping
    pub source: ToolSource,
    /// Override description
    pub description: Option<String>,
    /// Override input schema
    pub input_schema: Option<JsonValue>,
    /// Fields to inject at call time
    pub defaults: Vec<(String, JsonValue)>,
    /// Fields to remove from schema
    pub hide_fields: Vec<String>,
    /// Output transformation schema with JSONPath mappings
    pub output_schema: Option<OutputSchema>,
    /// Semantic version
    pub version: Option<String>,
    /// Arbitrary metadata
    pub metadata: Vec<(String, JsonValue)>,
}

impl LegacyVirtualToolDef {
    /// A legacy virtual tool exposing `tool` of `target` under `name`.
    pub fn new(name: String, target: String, tool: String) -> (r: LegacyVirtualToolDef)
        ensures
            r.name == name && r.source.target == target && r.source.tool == tool,
            r.description is None && r.input_schema is None && r.output_schema is None && r.version is None,
            r.defaults@.len() == 0 && r.hide_fields@.len() == 0 && r.metadata@.len() == 0,
    {
        LegacyVirtualToolDef {
            name,
            source: ToolSource { target, tool },
            description: None,
            input_schema: None,
            defaults: Vec::new(),
            hide_fields: Vec::new(),
            output_schema: None,
            version: None,
            metadata: Vec::new(),
        }
    }

    /// Builder: set the output schema.
    pub fn with_output_schema(self, schema: OutputSchema) -> (r: LegacyVirtualToolDef)
        ensures
            r == (LegacyVirtualToolDef { output_schema: Some(schema), ..self }),
    {
        LegacyVirtualToolDef { output_schema: Some(schema), ..self }
    }
}

/// The JSONPath of a legacy output field: its source field, or `$.name` when it
/// passes the field through.
pub open spec fn legacy_path(name: Seq<char>, field: OutputField) -> Seq<char> {
    match field.source_field {
        Some(p) => p@,
        None => "$."@ + name,
    }
}

/// Whether `ms` is the output transform of the legacy output fields `props`: each
/// field read at its JSONPath, in order.
pub open spec fn legacy_mappings(ms: Seq<(String, FieldSource)>, props: Seq<(String, OutputField)>) -> bool {
    &&& ms.len() == props.len()
    &&& forall|i: int| 0 <= i < ms.len() ==> reads_field(#[trigger] ms[i], props[i])
}

/// Whether a mapping reads a legacy output field at its JSONPath.
pub open spec fn reads_field(m: (String, FieldSource), prop: (String, OutputField)) -> bool {
    &&& m.0@ == prop.0@
    &&& (m.1 matches FieldSource::Path(p) && p@ == legacy_path(prop.0@, prop.1))
}

/// Whether `t` is the tool definition of the legacy virtual tool `l`.
pub open spec fn is_from_legacy(t: ToolDefinition, l: LegacyVirtualToolDef) -> bool {
    &&& t.name == l.name
    &&& t.description == l.description
    &&& t.implementation == ToolImplementation::Source(
        SourceTool {
            target: l.source.target,
            tool: l.source.tool,
            defaults: l.defaults,
            hide_fields: l.hide_fields,
            server_version: None,
        },
    )
    &&& t.input_schema == l.input_schema
    &&& match l.output_schema {
        Some(os) => t.output_transform matches Some(ms) && legacy_mappings(ms@, os.properties@),
        None => t.output_transform is None,
    }
    &&& t.output_schema is None
    &&& t.version == l.version
    &&& t.metadata == l.metadata
    &&& t.tags@.len() == 0 && t.deprecated is None && t.depends@.len() == 0
}

/// The output transform of legacy output fields.
fn legacy_transform(props: &Vec<(String, OutputField)>) -> (r: Vec<(String, FieldSource)>)
    ensures
        legacy_mappings(r@, props@),
{
    let mut out: Vec<(String, FieldSource)> = Vec::new();
    let mut i: usize = 0;
    while i < props.len()
        invariant
            i <= props@.len(),
            legacy_mappings(out@, props@.take(i as int)),
        decreases props@.len() - i,
    {
        let (name, field) = (&props[i].0, &props[i].1);
        let path = match &field.source_field {
            Some(p) => p.clone(),
            None => concat_str("$.", name.as_str()),
        };
        proof {
            reveal_strlit("$.");
        }
        out.push((name.clone(), FieldSource::Path(path)));
        assert forall|k: int| 0 <= k < out@.len() implies reads_field(#[trigger] out@[k], props@.take(i + 1)[k]) by {
            if k < i {
                assert(props@.take(i + 1)[k] == props@.take(i as int)[k]);
            }
        }
        i = i + 1;
    }
    assert(props@.take(props@.len() as int) =~= props@);
    out
}

impl ToolDefinition {
    /// The tool definition of a legacy virtual tool: a source tool whose output
    /// schema becomes an output transform reading each field at its JSONPath.
    pub fn from_legacy(legacy: LegacyVirtualToolDef) -> (r: ToolDefinition)
        ensures
            is_from_legacy(r, legacy),
    {
        let output_transform = match &legacy.output_schema {
            Some(os) => Some(legacy_transform(&os.properties)),
            None => None,
        };
        ToolDefinition {
            name: legacy.name,
            description: legacy.description,
            implementation: ToolImplementation::Source(
                SourceTool {
                    target: legacy.source.target,
                    tool: legacy.source.tool,
                    defaults: legacy.defaults,
                    hide_fields: legacy.hide_fields,
                    server_version: None,
                },
            ),
            output_transform,
            input_schema: legacy.input_schema,
            output_schema: None,
            version: legacy.version,
            metadata: legacy.metadata,
            tags: Vec::new(),
            deprecated: None,
            depends: Vec::new(),
        }
    }
}

impl ToolDefinition {
    /// Whether the tool has an output transform.
    pub fn has_output_transform(&self) -> (r: bool)
        ensures
            r == self.output_transform is Some,
    {
        self.output_transform.is_some()
    }

    /// The field names of the tool's output transform, in order.
    pub fn output_transform_fields(&self) -> (r: Option<Vec<String>>)
        ensures
            match self.output_transform {
                Some(ms) => r matches Some(v) && v@.len() == ms@.len() && forall|i: int|
                    0 <= i < ms@.len() ==> (#[trigger] v@[i])@ == ms@[i].0@,
                None => r is None,
            },
    {
        match &self.output_transform {
            None => None,
            Some(ms) => {
                let mut out: Vec<String> = Vec::new();
                let mut i: usize = 0;
                while i < ms.len()
                    invariant
                        i <= ms@.len(),
                        out@.len() == i,
                        forall|q: int| 0 <= q < i ==> (#[trigger] out@[q])@ == ms@[q].0@,
                    decreases ms@.len() - i,
                {
                    out.push(ms[i].0.clone());
                    i = i + 1;
                }
                Some(out)
            },
        }
    }
}

impl Registry {
    /// A registry of schema version "1.0" holding the legacy virtual tools.
    pub fn with_tools(tools: Vec<LegacyVirtualToolDef>) -> (r: Registry)
        ensures
            r.schema_version@ == "1.0"@,
            r.tools@.len() == tools@.len(),
            forall|i: int| 0 <= i < tools@.len() ==> is_from_legacy(#[trigger] r.tools@[i], tools@[i]),
            r.schemas@.len() == 0 && r.servers@.len() == 0 && r.agents@.len() == 0 && r.metadata@.len() == 0,
    {
        let ghost ls = tools@;
        let mut defs: Vec<ToolDefinition> = Vec::new();
        let mut rest = tools;
        while rest.len() > 0
            invariant
                defs@.len() + rest@.len() == ls.len(),
                forall|q: int| 0 <= q < defs@.len() ==> is_from_legacy(#[trigger] defs@[q], ls[q]),
                rest@ == ls.skip(defs@.len() as int),
            decreases rest@.len(),
        {
            let l = rest.remove(0);
            assert(l == ls[defs@.len() as int]);
            let ghost k = defs@.len();
            defs.push(ToolDefinition::from_legacy(l));
            assert(rest@ =~= ls.skip(defs@.len() as int));
        }
        Registry::with_tool_definitions(defs)
    }
}

impl Registry {
    /// An empty registry of schema version "1.0".
    pub fn new() -> (r: Registry)
        ensures
            r.schema_version@ == "1.0"@,
            r.tools@.len() == 0,
            r.schemas@.len() == 0,
            r.servers@.len() == 0,
            r.agents@.len() == 0,
            r.metadata@.len() == 0,
    {
        Registry::with_tool_definitions(Vec::new())
    }

    /// A registry of schema version "1.0" holding the given tools.
    pub fn with_tool_definitions(tools: Vec<ToolDefinition>) -> (r: Registry)
        ensures
            r.schema_version@ == "1.0"@,
            r.tools == tools,
            r.schemas@.len() == 0,
            r.servers@.len() == 0,
            r.agents@.len() == 0,
            r.metadata@.len() == 0,
    {
        Registry {
            schema_version: default_schema_version(),
            tools,
            schemas: Vec::new(),
            servers: Vec::new(),
            agents: Vec::new(),
            metadata: Vec::new(),
        }
    }

    /// Whether the registry has no tools.
    pub fn is_empty(&self) -> (r: bool)
        ensures
            r == (self.tools@.len() == 0),
    {
        self.tools.len() == 0
    }

    /// Number of tools.
    pub fn len(&self) -> (r: usize)
        ensures
            r == self.tools@.len(),
    {
        self.tools.len()
    }
}

impl SourceTool {
    /// Builder: sets the default of `key` to `value`, replacing an earlier one.
    pub fn with_default(self, key: String, value: JsonValue) -> (r: SourceTool)
        ensures
            members_view(r.defaults@) == spec_insert(members_view(self.defaults@), key@, value@),
            r.target == self.target && r.tool == self.tool && r.hide_fields == self.hide_fields
                && r.server_version == self.server_version,
    {
        let mut t = self;
        object_insert(&mut t.defaults, key, value);
        t
    }

    /// Builder: sets the fields hidden from agents.
    pub fn with_hidden_fields(self, fields: Vec<String>) -> (r: SourceTool)
        ensures
            r.hide_fields == fields,
            r.target == self.target && r.tool == self.tool && r.defaults == self.defaults
                && r.server_version == self.server_version,
    {
        let mut t = self;
        t.hide_fields = fields;
        t
    }
}

impl ToolDefinition {
    /// A virtual tool exposing `tool` of `target` under `name`.
    pub fn source(name: String, target: String, tool: String) -> (r: ToolDefinition)
        ensures
            r.name == name,
            r.implementation matches ToolImplementation::Source(s) && s.target == target && s.tool
                == tool && s.defaults@.len() == 0 && s.hide_fields@.len() == 0 && s.server_version is None,
            r.description is None && r.input_schema is None && r.output_schema is None,
            r.output_transform is None,
            r.version is None && r.deprecated is None,
            r.metadata@.len() == 0 && r.tags@.len() == 0 && r.depends@.len() == 0,
    {
        ToolDefinition {
            name,
            description: None,
            implementation: ToolImplementation::Source(
                SourceTool { target, tool, defaults: Vec::new(), hide_fields: Vec::new(), server_version: None },
            ),
            output_transform: None,
            input_schema: None,
            output_schema: None,
            version: None,
            metadata: Vec::new(),
            tags: Vec::new(),
            deprecated: None,
            depends: Vec::new(),
        }
    }

    /// A composition named `name`.
    pub fn composition(name: String, spec: CompositionSpec) -> (r: ToolDefinition)
        ensures
            r.name == name,
            r.implementation == ToolImplementation::Spec(spec),
            r.description is None && r.input_schema is None && r.output_schema is None,
            r.output_transform is None,
            r.version is None && r.deprecated is None,
            r.metadata@.len() == 0 && r.tags@.len() == 0 && r.depends@.len() == 0,
    {
        ToolDefinition {
            name,
            description: None,
            implementation: ToolImplementation::Spec(spec),
            output_transform: None,
            input_schema: None,
            output_schema: None,
            version: None,
            metadata: Vec::new(),
            tags: Vec::new(),
            deprecated: None,
            depends: Vec::new(),
        }
    }

    /// Builder: set description.
    pub fn with_description(self, desc: String) -> (r: ToolDefinition)
        ensures
            r.description == Some(desc),
            r.name == self.name && r.implementation == self.implementation && r.depends == self.depends
                && r.version == self.version && r.deprecated == self.deprecated,
    {
        let mut t = self;
        t.description = Some(desc);
        t
    }

    /// Whether this is a source-based tool.
    pub fn is_source(&self) -> (r: bool)
        ensures
            r == (self.implementation is Source),
    {
        match &self.implementation {
            ToolImplementation::Source(_) => true,
            ToolImplementation::Spec(_) => false,
        }
    }

    /// Whether this is a composition.
    pub fn is_composition(&self) -> (r: bool)
        ensures
            r == (self.implementation is Spec),
    {
        match &self.implementation {
            ToolImplementation::Source(_) => false,
            ToolImplementation::Spec(_) => true,
        }
    }

    /// The source tool, if this is a source-based tool.
    pub fn source_tool(&self) -> (r: Option<&SourceTool>)
        ensures
            match &self.implementation {
                ToolImplementation::Source(s) => r == Some(s),
                ToolImplementation::Spec(_) => r is None,
            },
    {
        match &self.implementation {
            ToolImplementation::Source(s) => Some(s),
            ToolImplementation::Spec(_) => None,
        }
    }

    /// Names of the tools referenced by this definition: none for a virtual tool,
    /// those of the pattern for a composition.
    pub fn referenced_tools(&self) -> (r: Vec<String>)
        ensures
            match &self.implementation {
                ToolImplementation::Source(_) => r@.len() == 0,
                ToolImplementation::Spec(c) => r@ == c.referenced_tools@,
            },
    {
        match &self.implementation {
            ToolImplementation::Source(_) => Vec::new(),
            ToolImplementation::Spec(c) => c.referenced_tools.clone(),
        }
    }
}

/// The names of a sequence of tools.
pub open spec fn tool_names(tools: Seq<ToolDefinition>) -> Seq<Seq<char>> {
    tools.map_values(|t: ToolDefinition| t.name@)
}

/// The names of a sequence of agents.
pub open spec fn agent_names(agents: Seq<AgentDefinition>) -> Seq<Seq<char>> {
    agents.map_values(|a: AgentDefinition| a.name@)
}

/// Index of the first tool named `name`.
pub fn find_tool(tools: &Vec<ToolDefinition>, name: &str) -> (r: Option<usize>)
    ensures
        match r {
            Some(i) => i < tools@.len() && tools@[i as int].name@ == name@ && forall|j: int|
                0 <= j < i ==> tools@[j].name@ != name@,
            None => forall|j: int| 0 <= j < tools@.len() ==> tools@[j].name@ != name@,
        },
{
    let mut i: usize = 0;
    while i < tools.len()
        invariant
            i <= tools@.len(),
            forall|j: int| 0 <= j < i ==> tools@[j].name@ != name@,
        decreases tools@.len() - i,
    {
        if str_eq(tools[i].name.as_str(), name) {
            return Some(i);
        }
        i = i + 1;
    }
    None
}

/// Whether an agent is named `name`.
pub fn has_agent(agents: &Vec<AgentDefinition>, name: &str) -> (r: bool)
    ensures
        r == agent_names(agents@).contains(name@),
{
    let mut i: usize = 0;
    while i < agents.len()
        invariant
            i <= agents@.len(),
            forall|j: int| 0 <= j < i ==> agents@[j].name@ != name@,
        decreases agents@.len() - i,
    {
        if str_eq(agents[i].name.as_str(), name) {
            assert(agent_names(agents@)[i as int] == name@);
            return true;
        }
        i = i + 1;
    }
    false
}

} // verus!

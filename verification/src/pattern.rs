//! Composition patterns as the registry and the executor read them: which pattern
//! a composition is, the operations it names, and the execution graph built from it.
use vstd::prelude::*;
use crate::json::{JsonNumber, JsonValue};
use crate::backoff::BackoffStrategy;
use crate::pipeline::DataBinding;
use crate::registry::CompositionSpec;
use crate::scatter_gather::{AggregationStrategy, ExecutionError, ToolRef};
use crate::filter::{FieldPredicate, FilterSpec};
use crate::schema_map::SchemaMapSpec;

verus! {

/// The kinds of composition pattern.
#[derive(Debug, Clone, Copy, PartialEq, Eq, Structural)]
pub enum PatternKind {
    Pipeline,
    ScatterGather,
    Filter,
    SchemaMap,
    MapEach,
    Retry,
    Timeout,
    Cache,
    Idempotent,
    CircuitBreaker,
    DeadLetter,
    Saga,
    ClaimCheck,
    Throttle,
    Router,
    Enricher,
    WireTap,
    RecipientList,
    CapabilityRouter,
    SemanticDedup,
    ConfidenceAggregator,
}

/// The name of a pattern kind, as used in error messages.
pub open spec fn spec_kind_name(k: PatternKind) -> Seq<char> {
    match k {
        PatternKind::Pipeline => "pipeline"@,
        PatternKind::ScatterGather => "scatter_gather"@,
        PatternKind::Filter => "filter"@,
        PatternKind::SchemaMap => "schema_map"@,
        PatternKind::MapEach => "map_each"@,
        PatternKind::Retry => "retry"@,
        PatternKind::Timeout => "timeout"@,
        PatternKind::Cache => "cache"@,
        PatternKind::Idempotent => "idempotent"@,
        PatternKind::CircuitBreaker => "circuit_breaker"@,
        PatternKind::DeadLetter => "dead_letter"@,
        PatternKind::Saga => "saga"@,
        PatternKind::ClaimCheck => "claim_check"@,
        PatternKind::Throttle => "throttle"@,
        PatternKind::Router => "router"@,
        PatternKind::Enricher => "enricher"@,
        PatternKind::WireTap => "wire_tap"@,
        PatternKind::RecipientList => "recipient_list"@,
        PatternKind::CapabilityRouter => "capability_router"@,
        PatternKind::SemanticDedup => "semantic_dedup"@,
        PatternKind::ConfidenceAggregator => "confidence_aggregator"@,
    }
}

/// The stateless patterns: the ones whose runtime is implemented.
pub open spec fn spec_is_stateless(k: PatternKind) -> bool {
    ||| k == PatternKind::Pipeline
    ||| k == PatternKind::ScatterGather
    ||| k == PatternKind::Filter
    ||| k == PatternKind::SchemaMap
    ||| k == PatternKind::MapEach
}

/// The patterns that the executor runs: the stateless ones and the timeout.
pub open spec fn spec_is_executed(k: PatternKind) -> bool {
    spec_is_stateless(k) || k == PatternKind::Timeout
}

/// Why the executor does not run a pattern of kind `k`: what it would need.
pub open spec fn spec_unimplemented_details(k: PatternKind) -> Seq<char> {
    match k {
        PatternKind::Retry => "The retry pattern requires a state store for tracking attempt counts and backoff delays. Configure a state store backend (e.g., Redis, in-memory) and implement RetryExecutor to enable this pattern."@,
        PatternKind::Cache => "The cache pattern requires a cache store backend (e.g., Redis, in-memory LRU). Configure a cache store and implement CacheExecutor to enable read-through caching."@,
        PatternKind::Idempotent => "The idempotent pattern requires a store for tracking processed request keys. Configure a store backend (e.g., Redis, database) and implement IdempotentExecutor to prevent duplicate processing."@,
        PatternKind::CircuitBreaker => "The circuit breaker pattern requires a store for tracking failure counts and circuit state. Configure a store backend and implement CircuitBreakerExecutor to enable fail-fast behavior with automatic recovery."@,
        PatternKind::DeadLetter => "The dead letter pattern requires a queue or storage backend for capturing failed messages. Configure a dead letter tool and implement DeadLetterExecutor to enable failure capture for later processing."@,
        PatternKind::Saga => "The saga pattern requires a store for tracking saga state and enabling recovery. Configure a durable store backend and implement SagaExecutor to enable distributed transactions with compensation."@,
        PatternKind::ClaimCheck => "The claim check pattern requires blob storage tools for externalizing large payloads. Configure store_tool and retrieve_tool backends and implement ClaimCheckExecutor to enable payload externalization."@,
        PatternKind::Throttle => "The throttle pattern requires a rate limiter implementation. For single-instance: use in-memory rate limiter (e.g., governor crate). For distributed: configure a store backend with atomic increment support."@,
        PatternKind::Router => "The router pattern provides content-based routing to different tools based on predicates. Implement RouterExecutor to evaluate route conditions and dispatch to matching operations."@,
        PatternKind::Enricher => "The enricher pattern augments input with parallel enrichment calls. Implement EnricherExecutor to run enrichments concurrently and merge results."@,
        PatternKind::WireTap => "The wire tap pattern sends copies of data to side channels without affecting main flow. Implement WireTapExecutor to spawn fire-and-forget tap operations."@,
        PatternKind::RecipientList => "The recipient list pattern dynamically determines targets at runtime from input data. Implement RecipientListExecutor to resolve recipients and dispatch operations."@,
        PatternKind::CapabilityRouter => "The capability router pattern routes based on tool capabilities from registry introspection. Implement CapabilityRouterExecutor to query registry for matching tools."@,
        PatternKind::SemanticDedup => "The semantic dedup pattern deduplicates based on embedding similarity. Implement SemanticDedupExecutor with embedding service integration."@,
        PatternKind::ConfidenceAggregator => "The confidence aggregator pattern provides weighted aggregation based on source reliability. Implement ConfidenceAggregatorExecutor with consensus and conflict detection logic."@,
        _ => Seq::empty(),
    }
}


/// An operation of a pattern: a call of a tool by name, or a nested pattern.
#[derive(Debug)]
pub enum StepOperation {
    Tool(String),
    Pattern(Box<PatternSpec>),
}

/// A step of a pipeline.
#[derive(Debug)]
pub struct PipelineStep {
    /// Unique identifier for this step (for data binding references)
    pub id: String,
    /// The operation to execute
    pub operation: StepOperation,
    /// Input binding for this step
    pub input: Option<DataBinding>,
}

/// Sequential execution of steps.
#[derive(Debug)]
pub struct PipelineSpec {
    pub steps: Vec<PipelineStep>,
}

/// Apply an operation to each element of an array.
#[derive(Debug)]
pub struct MapEachSpec {
    /// The operation to apply to each element
    pub inner: StepOperation,
}

/// A retry pattern: the inner operation, tried again after a delay when it fails.
#[derive(Debug)]
pub struct RetrySpec {
    /// The operation to run
    pub inner: Box<StepOperation>,
    /// Attempts in all, the first included
    pub max_attempts: u32,
    /// The delay before each retry
    pub backoff: BackoffStrategy,
    /// Only failures whose answer satisfies this predicate are retried
    pub retry_if: Option<FieldPredicate>,
    /// The share of random variation of a delay, as a JSON number
    pub jitter: Option<JsonNumber>,
    /// The time limit of one attempt, in milliseconds
    pub attempt_timeout_ms: Option<u32>,
}

/// A timeout pattern: the inner operation within a time limit; past it, the
/// fallback operation on the same input, or a timeout error.
#[derive(Debug)]
pub struct TimeoutSpec {
    /// The operation to run
    pub inner: Box<StepOperation>,
    /// The time limit, in milliseconds
    pub duration_ms: u32,
    /// The operation run when the limit passes
    pub fallback: Option<Box<StepOperation>>,
    /// A message for the timeout error
    pub message: Option<String>,
}

/// A cache pattern: the inner operation's answer kept in a store under a key
/// read from the input.
#[derive(Debug)]
pub struct CacheSpec {
    /// JSONPaths whose values make up the cache key
    pub key_paths: Vec<String>,
    /// The operation whose answer is cached
    pub inner: Box<StepOperation>,
    /// The store's name
    pub store: String,
    /// How long an entry lives, in seconds
    pub ttl_seconds: u32,
    /// How long a stale entry may still be answered while it is refreshed
    pub stale_while_revalidate_seconds: Option<u32>,
    /// Only answers that satisfy this predicate are cached
    pub cache_if: Option<FieldPredicate>,
}

/// What an idempotent pattern does with a request it has seen.
#[derive(Debug, Clone, Copy, PartialEq, Eq, Structural)]
pub enum OnDuplicate {
    /// Answer the first request's answer
    Cached,
    /// Answer null
    Skip,
    /// Answer an error
    Error,
}

/// An idempotent pattern: each key is processed once.
#[derive(Debug)]
pub struct IdempotentSpec {
    /// JSONPaths whose values make up the key
    pub key_paths: Vec<String>,
    /// The operation to run once per key
    pub inner: Box<StepOperation>,
    /// The store's name
    pub store: String,
    /// How long a key is remembered, in seconds
    pub ttl_seconds: Option<u32>,
    /// What a repeated key gets
    pub on_duplicate: OnDuplicate,
}

/// A circuit breaker pattern around an operation.
#[derive(Debug)]
pub struct CircuitBreakerSpec {
    /// The circuit's name
    pub name: String,
    /// The protected operation
    pub inner: Box<StepOperation>,
    /// The store's name
    pub store: String,
    /// Failures that open the circuit
    pub failure_threshold: u32,
    /// The window failures are counted in, in seconds
    pub failure_window_seconds: u32,
    /// How long the circuit stays open, in seconds
    pub reset_timeout_seconds: u32,
    /// Successes in half-open state that close the circuit
    pub success_threshold: u32,
    /// The operation run while the circuit is open
    pub fallback: Option<Box<StepOperation>>,
    /// Answers that count as failures
    pub failure_if: Option<FieldPredicate>,
}

/// A dead-letter pattern: failures of the operation go to a dead-letter tool.
#[derive(Debug)]
pub struct DeadLetterSpec {
    /// The operation to run
    pub inner: Box<StepOperation>,
    /// The tool failures are sent to
    pub dead_letter_tool: String,
    /// Attempts before a failure is sent
    pub max_attempts: u32,
    /// The delay before each retry
    pub backoff: Option<BackoffStrategy>,
    /// Whether the failure is still returned after it was sent
    pub rethrow: bool,
}

/// A step of a saga: its action, the compensation that undoes it, and its input.
#[derive(Debug)]
pub struct SagaStep {
    pub id: String,
    pub name: String,
    pub action: StepOperation,
    pub compensate: Option<StepOperation>,
    pub input: DataBinding,
}

/// A saga pattern: steps run in order, completed ones compensated in reverse on
/// a failure.
#[derive(Debug)]
pub struct SagaSpec {
    pub steps: Vec<SagaStep>,
    /// The store's name
    pub store: Option<String>,
    /// JSONPath of the saga's id in the input
    pub saga_id_path: Option<String>,
    /// Time limit for the whole saga, in milliseconds
    pub timeout_ms: Option<u32>,
    /// What the saga answers
    pub output: Option<DataBinding>,
}

/// A claim check pattern: the payload is stored, the inner operation works on
/// its reference, and the payload may be retrieved at the end.
#[derive(Debug)]
pub struct ClaimCheckSpec {
    pub store_tool: String,
    pub retrieve_tool: String,
    pub inner: Box<StepOperation>,
    pub retrieve_at_end: bool,
}

/// A target of a scatter-gather: a tool, optionally on a given server, or a
/// nested pattern.
#[derive(Debug)]
pub enum ScatterTarget {
    Tool(ToolRef),
    Pattern(Box<PatternSpec>),
}

/// Parallel fan-out with aggregation.
#[derive(Debug)]
pub struct ScatterGatherSpec {
    /// Targets to invoke in parallel
    pub targets: Vec<ScatterTarget>,
    /// How to combine the results
    pub aggregation: AggregationStrategy,
    /// Timeout for the whole fan-out, in milliseconds
    pub timeout_ms: Option<u32>,
    /// Fail as soon as one target fails
    pub fail_fast: bool,
}

/// A composition pattern and its settings. The throttle pattern, which the
/// executor does not run, carries none; the routing patterns carry the
/// operations and tools they name.
#[derive(Debug)]
pub enum PatternSpec {
    Pipeline(PipelineSpec),
    ScatterGather(ScatterGatherSpec),
    Filter(FilterSpec),
    SchemaMap(SchemaMapSpec),
    MapEach(MapEachSpec),
    Retry(RetrySpec),
    Timeout(TimeoutSpec),
    Cache(CacheSpec),
    Idempotent(IdempotentSpec),
    CircuitBreaker(CircuitBreakerSpec),
    DeadLetter(DeadLetterSpec),
    Saga(SagaSpec),
    ClaimCheck(ClaimCheckSpec),
    Throttle,
    /// The operations of the routes, in order, and the operation taken when no
    /// route matches
    Router { routes: Vec<StepOperation>, otherwise: Option<Box<StepOperation>> },
    /// The operations of the enrichments, in order
    Enricher { enrichments: Vec<StepOperation> },
    /// The main operation and the tools that taps send to
    WireTap { inner: Box<StepOperation>, taps: Vec<String> },
    /// The tool that returns the recipients, if any
    RecipientList { recipients_tool: Option<String> },
    /// The operation taken when no tool has the capability
    CapabilityRouter { fallback: Option<Box<StepOperation>> },
    /// The embedding tool
    SemanticDedup { embedder: String },
    /// The operations of the weighted sources, in order
    ConfidenceAggregator { sources: Vec<StepOperation> },
}

/// The tools an operation references: the tool it calls, or those of its pattern.
pub open spec fn operation_tools(op: StepOperation) -> Seq<String>
    decreases op,
{
    match op {
        StepOperation::Tool(name) => seq![name],
        StepOperation::Pattern(p) => pattern_tools(*p),
    }
}

/// The tools that a list of operations references, in order.
pub open spec fn operations_tools(ops: Seq<StepOperation>) -> Seq<String>
    decreases ops,
{
    if ops.len() == 0 {
        Seq::empty()
    } else {
        operations_tools(ops.drop_last()) + operation_tools(ops.last())
    }
}

/// The tools a scatter-gather target references.
pub open spec fn target_tools(t: ScatterTarget) -> Seq<String>
    decreases t,
{
    match t {
        ScatterTarget::Tool(r) => seq![r.tool],
        ScatterTarget::Pattern(p) => pattern_tools(*p),
    }
}

/// The tools that the targets of a scatter-gather reference, in order.
pub open spec fn targets_tools(ts: Seq<ScatterTarget>) -> Seq<String>
    decreases ts,
{
    if ts.len() == 0 {
        Seq::empty()
    } else {
        targets_tools(ts.drop_last()) + target_tools(ts.last())
    }
}

/// The tools that the steps of a pipeline reference, in order.
pub open spec fn steps_tools(steps: Seq<PipelineStep>) -> Seq<String>
    decreases steps,
{
    if steps.len() == 0 {
        Seq::empty()
    } else {
        steps_tools(steps.drop_last()) + operation_tools(steps.last().operation)
    }
}

/// The tools that an optional operation references.
pub open spec fn optional_tools(op: Option<Box<StepOperation>>) -> Seq<String>
    decreases op,
{
    match op {
        Some(o) => operation_tools(*o),
        None => Seq::empty(),
    }
}

/// The tools a pattern references, in order: the steps of a pipeline, the
/// targets of a scatter-gather, the inner operation of a map-each, and the
/// operations and tools that the routing patterns name. Filter, schema-map and
/// the stateful patterns reference none.
pub open spec fn pattern_tools(p: PatternSpec) -> Seq<String>
    decreases p,
{
    match p {
        PatternSpec::Pipeline(ps) => steps_tools(ps.steps@),
        PatternSpec::ScatterGather(sg) => targets_tools(sg.targets@),
        PatternSpec::MapEach(me) => operation_tools(me.inner),
        PatternSpec::Router { routes, otherwise } => operations_tools(routes@) + optional_tools(otherwise),
        PatternSpec::Enricher { enrichments } => operations_tools(enrichments@),
        PatternSpec::WireTap { inner, taps } => operation_tools(*inner) + taps@,
        PatternSpec::RecipientList { recipients_tool } => match recipients_tool {
            Some(t) => seq![t],
            None => Seq::empty(),
        },
        PatternSpec::CapabilityRouter { fallback } => optional_tools(fallback),
        PatternSpec::SemanticDedup { embedder } => seq![embedder],
        PatternSpec::ConfidenceAggregator { sources } => operations_tools(sources@),
        _ => Seq::empty(),
    }
}


/// The kind of a pattern.
pub open spec fn spec_kind(p: PatternSpec) -> PatternKind {
    match p {
        PatternSpec::Pipeline(_) => PatternKind::Pipeline,
        PatternSpec::ScatterGather(_) => PatternKind::ScatterGather,
        PatternSpec::Filter(_) => PatternKind::Filter,
        PatternSpec::SchemaMap(_) => PatternKind::SchemaMap,
        PatternSpec::MapEach(_) => PatternKind::MapEach,
        PatternSpec::Retry(_) => PatternKind::Retry,
        PatternSpec::Timeout(_) => PatternKind::Timeout,
        PatternSpec::Cache(_) => PatternKind::Cache,
        PatternSpec::Idempotent(_) => PatternKind::Idempotent,
        PatternSpec::CircuitBreaker(_) => PatternKind::CircuitBreaker,
        PatternSpec::DeadLetter(_) => PatternKind::DeadLetter,
        PatternSpec::Saga(_) => PatternKind::Saga,
        PatternSpec::ClaimCheck(_) => PatternKind::ClaimCheck,
        PatternSpec::Throttle => PatternKind::Throttle,
        PatternSpec::Router { .. } => PatternKind::Router,
        PatternSpec::Enricher { .. } => PatternKind::Enricher,
        PatternSpec::WireTap { .. } => PatternKind::WireTap,
        PatternSpec::RecipientList { .. } => PatternKind::RecipientList,
        PatternSpec::CapabilityRouter { .. } => PatternKind::CapabilityRouter,
        PatternSpec::SemanticDedup { .. } => PatternKind::SemanticDedup,
        PatternSpec::ConfidenceAggregator { .. } => PatternKind::ConfidenceAggregator,
    }
}

impl StepOperation {
    /// The tools this operation references.
    pub fn referenced_tools(&self) -> (r: Vec<String>)
        ensures
            r@ == operation_tools(*self),
        decreases self,
    {
        match self {
            StepOperation::Tool(name) => vec![name.clone()],
            StepOperation::Pattern(p) => {
                assert(decreases_to!(*self => **p));
                p.referenced_tools()
            },
        }
    }
}

impl ScatterTarget {
    /// The tools this target references.
    pub fn referenced_tools(&self) -> (r: Vec<String>)
        ensures
            r@ == target_tools(*self),
        decreases self,
    {
        match self {
            ScatterTarget::Tool(r) => vec![r.tool.clone()],
            ScatterTarget::Pattern(p) => {
                assert(decreases_to!(*self => **p));
                p.referenced_tools()
            },
        }
    }

    /// The server of a tool target, if it names one.
    pub fn server(&self) -> (r: Option<&String>)
        ensures
            match *self {
                ScatterTarget::Tool(t) => match t.server {
                    Some(s) => r == Some(&s),
                    None => r is None,
                },
                ScatterTarget::Pattern(_) => r is None,
            },
    {
        match self {
            ScatterTarget::Tool(t) => t.server.as_ref(),
            ScatterTarget::Pattern(_) => None,
        }
    }

    /// The tool name of a tool target.
    pub fn tool_name(&self) -> (r: Option<&String>)
        ensures
            match *self {
                ScatterTarget::Tool(t) => r == Some(&t.tool),
                ScatterTarget::Pattern(_) => r is None,
            },
    {
        match self {
            ScatterTarget::Tool(t) => Some(&t.tool),
            ScatterTarget::Pattern(_) => None,
        }
    }
}

/// The tools that a list of operations references, in order.
fn operations_referenced_tools(ops: &Vec<StepOperation>) -> (r: Vec<String>)
    ensures
        r@ == operations_tools(ops@),
    decreases ops,
{
    let mut out: Vec<String> = Vec::new();
    let mut i: usize = 0;
    while i < ops.len()
        invariant
            i <= ops@.len(),
            out@ == operations_tools(ops@.take(i as int)),
        decreases ops@.len() - i,
    {
        assert(decreases_to!(*ops => ops[i as int]));
        let mut more = ops[i].referenced_tools();
        assert(ops@.take(i + 1).drop_last() =~= ops@.take(i as int));
        out.append(&mut more);
        i = i + 1;
    }
    assert(ops@.take(ops@.len() as int) =~= ops@);
    out
}

/// The tools that the targets of a scatter-gather reference, in order.
fn targets_referenced_tools(ts: &Vec<ScatterTarget>) -> (r: Vec<String>)
    ensures
        r@ == targets_tools(ts@),
    decreases ts,
{
    let mut out: Vec<String> = Vec::new();
    let mut i: usize = 0;
    while i < ts.len()
        invariant
            i <= ts@.len(),
            out@ == targets_tools(ts@.take(i as int)),
        decreases ts@.len() - i,
    {
        assert(decreases_to!(*ts => ts[i as int]));
        let mut more = ts[i].referenced_tools();
        assert(ts@.take(i + 1).drop_last() =~= ts@.take(i as int));
        out.append(&mut more);
        i = i + 1;
    }
    assert(ts@.take(ts@.len() as int) =~= ts@);
    out
}

/// The tools that the steps of a pipeline reference, in order.
fn steps_referenced_tools(steps: &Vec<PipelineStep>) -> (r: Vec<String>)
    ensures
        r@ == steps_tools(steps@),
    decreases steps,
{
    let mut out: Vec<String> = Vec::new();
    let mut i: usize = 0;
    while i < steps.len()
        invariant
            i <= steps@.len(),
            out@ == steps_tools(steps@.take(i as int)),
        decreases steps@.len() - i,
    {
        assert(decreases_to!(*steps => steps[i as int]));
        assert(decreases_to!(steps[i as int] => steps[i as int].operation));
        let mut more = steps[i].operation.referenced_tools();
        assert(steps@.take(i + 1).drop_last() =~= steps@.take(i as int));
        out.append(&mut more);
        i = i + 1;
    }
    assert(steps@.take(steps@.len() as int) =~= steps@);
    out
}

impl PipelineSpec {
    /// The tools the steps reference, in order.
    pub fn referenced_tools(&self) -> (r: Vec<String>)
        ensures
            r@ == steps_tools(self.steps@),
    {
        steps_referenced_tools(&self.steps)
    }
}

impl ScatterGatherSpec {
    /// The tools the targets reference, in order.
    pub fn referenced_tools(&self) -> (r: Vec<String>)
        ensures
            r@ == targets_tools(self.targets@),
    {
        targets_referenced_tools(&self.targets)
    }
}

impl MapEachSpec {
    /// A map-each that calls a tool for each element.
    pub fn tool(name: String) -> (r: MapEachSpec)
        ensures
            r.inner == StepOperation::Tool(name),
    {
        MapEachSpec { inner: StepOperation::Tool(name) }
    }

    /// A map-each that applies a pattern to each element.
    pub fn pattern(spec: PatternSpec) -> (r: MapEachSpec)
        ensures
            r.inner == StepOperation::Pattern(Box::new(spec)),
    {
        MapEachSpec { inner: StepOperation::Pattern(Box::new(spec)) }
    }

    /// The tools the inner operation references.
    pub fn referenced_tools(&self) -> (r: Vec<String>)
        ensures
            r@ == operation_tools(self.inner),
    {
        self.inner.referenced_tools()
    }
}

impl PatternSpec {
    /// The kind of this pattern.
    pub fn kind(&self) -> (r: PatternKind)
        ensures
            r == spec_kind(*self),
    {
        match self {
            PatternSpec::Pipeline(_) => PatternKind::Pipeline,
            PatternSpec::ScatterGather(_) => PatternKind::ScatterGather,
            PatternSpec::Filter(_) => PatternKind::Filter,
            PatternSpec::SchemaMap(_) => PatternKind::SchemaMap,
            PatternSpec::MapEach(_) => PatternKind::MapEach,
            PatternSpec::Retry(_) => PatternKind::Retry,
            PatternSpec::Timeout(_) => PatternKind::Timeout,
            PatternSpec::Cache(_) => PatternKind::Cache,
            PatternSpec::Idempotent(_) => PatternKind::Idempotent,
            PatternSpec::CircuitBreaker(_) => PatternKind::CircuitBreaker,
            PatternSpec::DeadLetter(_) => PatternKind::DeadLetter,
            PatternSpec::Saga(_) => PatternKind::Saga,
            PatternSpec::ClaimCheck(_) => PatternKind::ClaimCheck,
            PatternSpec::Throttle => PatternKind::Throttle,
            PatternSpec::Router { .. } => PatternKind::Router,
            PatternSpec::Enricher { .. } => PatternKind::Enricher,
            PatternSpec::WireTap { .. } => PatternKind::WireTap,
            PatternSpec::RecipientList { .. } => PatternKind::RecipientList,
            PatternSpec::CapabilityRouter { .. } => PatternKind::CapabilityRouter,
            PatternSpec::SemanticDedup { .. } => PatternKind::SemanticDedup,
            PatternSpec::ConfidenceAggregator { .. } => PatternKind::ConfidenceAggregator,
        }
    }

    /// The pattern's name for error messages.
    pub fn pattern_name(&self) -> (r: &'static str)
        ensures
            r@ == spec_kind_name(spec_kind(*self)),
    {
        self.kind().name()
    }

    /// True for the stateful and routing patterns, whose runtime is not implemented.
    pub fn is_stateful_unimplemented(&self) -> (r: bool)
        ensures
            r == !spec_is_stateless(spec_kind(*self)),
    {
        self.kind().is_stateful_unimplemented()
    }

    /// The names of the tools this pattern references, in order.
    pub fn referenced_tools(&self) -> (r: Vec<String>)
        ensures
            r@ == pattern_tools(*self),
        decreases self,
    {
        match self {
            PatternSpec::Pipeline(ps) => {
                assert(decreases_to!(*self => ps.steps));
                steps_referenced_tools(&ps.steps)
            },
            PatternSpec::ScatterGather(sg) => {
                assert(decreases_to!(*self => sg.targets));
                targets_referenced_tools(&sg.targets)
            },
            PatternSpec::MapEach(me) => {
                assert(decreases_to!(*self => me.inner));
                me.inner.referenced_tools()
            },
            PatternSpec::Router { routes, otherwise } => {
                assert(decreases_to!(*self => *routes));
                let mut out = operations_referenced_tools(routes);
                match otherwise {
                    Some(o) => {
                        assert(decreases_to!(*self => **o));
                        let mut more = o.referenced_tools();
                        out.append(&mut more);
                    },
                    None => {},
                }
                out
            },
            PatternSpec::Enricher { enrichments } => {
                assert(decreases_to!(*self => *enrichments));
                operations_referenced_tools(enrichments)
            },
            PatternSpec::WireTap { inner, taps } => {
                assert(decreases_to!(*self => **inner));
                let mut out = inner.referenced_tools();
                let mut i: usize = 0;
                while i < taps.len()
                    invariant
                        i <= taps@.len(),
                        out@ == operation_tools(**inner) + taps@.take(i as int),
                    decreases taps@.len() - i,
                {
                    assert(taps@.take(i + 1) =~= taps@.take(i as int).push(taps@[i as int]));
                    out.push(taps[i].clone());
                    i = i + 1;
                }
                assert(taps@.take(taps@.len() as int) =~= taps@);
                out
            },
            PatternSpec::RecipientList { recipients_tool } => match recipients_tool {
                Some(t) => vec![t.clone()],
                None => Vec::new(),
            },
            PatternSpec::CapabilityRouter { fallback } => match fallback {
                Some(f) => {
                    assert(decreases_to!(*self => **f));
                    f.referenced_tools()
                },
                None => Vec::new(),
            },
            PatternSpec::SemanticDedup { embedder } => vec![embedder.clone()],
            PatternSpec::ConfidenceAggregator { sources } => {
                assert(decreases_to!(*self => *sources));
                operations_referenced_tools(sources)
            },
            _ => Vec::new(),
        }
    }
}


/// Where a node of an execution graph takes its input from.
#[derive(Debug)]
pub enum NodeInput {
    /// From the composition input
    CompositionInput,
    /// From another node's output, optionally at a path in it
    Node { node_index: usize, path: Option<String> },
    /// A constant value
    Constant(JsonValue),
}

/// The operation a node of an execution graph performs.
#[derive(Debug)]
pub enum NodeOperation {
    /// Call a tool
    ToolCall { name: String },
    /// A pattern that has no node form of its own, kept as it is
    Pattern(Box<PatternSpec>),
    /// Execute steps in sequence
    Pipeline { steps: Vec<PipelineStep> },
    /// Fan out to targets and aggregate their results
    ScatterGather {
        targets: Vec<ScatterTarget>,
        aggregation: AggregationStrategy,
        timeout_ms: Option<u32>,
        fail_fast: bool,
    },
    /// Keep the elements that match a predicate
    Filter(FilterSpec),
    /// Transform fields
    SchemaMap(SchemaMapSpec),
    /// Apply an operation to each array element
    MapEach { inner: StepOperation },
    /// The composition's input
    Input,
    /// The composition's output
    Output,
}

/// A node of an execution graph.
#[derive(Debug)]
pub struct ExecutionNode {
    /// Unique ID within the graph
    pub id: String,
    /// The operation this node performs
    pub operation: NodeOperation,
    /// Input sources for this node
    pub inputs: Vec<NodeInput>,
}

/// The execution graph of a composition: its nodes, the entry node and the node
/// whose output is the composition's output.
#[derive(Debug)]
pub struct ExecutionGraph {
    pub nodes: Vec<ExecutionNode>,
    pub entry: usize,
    pub exit: usize,
}

/// The node operation of a pattern: the stateless patterns by their own node
/// form, every other pattern kept as it is.
pub open spec fn spec_node_operation(p: PatternSpec) -> NodeOperation {
    match p {
        PatternSpec::Pipeline(ps) => NodeOperation::Pipeline { steps: ps.steps },
        PatternSpec::ScatterGather(sg) => NodeOperation::ScatterGather {
            targets: sg.targets,
            aggregation: sg.aggregation,
            timeout_ms: sg.timeout_ms,
            fail_fast: sg.fail_fast,
        },
        PatternSpec::Filter(f) => NodeOperation::Filter(f),
        PatternSpec::SchemaMap(sm) => NodeOperation::SchemaMap(sm),
        PatternSpec::MapEach(me) => NodeOperation::MapEach { inner: me.inner },
        _ => NodeOperation::Pattern(Box::new(p)),
    }
}

/// The graph of a pattern: an input node, the node of the pattern fed by the
/// input, and an output node fed by the pattern; it is entered at the first and
/// left at the last.
pub open spec fn is_graph_of(g: ExecutionGraph, p: PatternSpec) -> bool {
    &&& g.nodes@.len() == 3
    &&& g.entry == 0
    &&& g.exit == 2
    &&& g.nodes@[0].id@ == "_input"@
    &&& g.nodes@[0].operation == NodeOperation::Input
    &&& g.nodes@[0].inputs@.len() == 0
    &&& g.nodes@[1].id@ == "_main"@
    &&& g.nodes@[1].operation == spec_node_operation(p)
    &&& g.nodes@[1].inputs@ == seq![NodeInput::Node { node_index: 0, path: None }]
    &&& g.nodes@[2].id@ == "_output"@
    &&& g.nodes@[2].operation == NodeOperation::Output
    &&& g.nodes@[2].inputs@ == seq![NodeInput::Node { node_index: 1, path: None }]
}

/// The tools a node operation references.
pub open spec fn node_tools(op: NodeOperation) -> Seq<String> {
    match op {
        NodeOperation::ToolCall { name } => seq![name],
        NodeOperation::Pattern(p) => pattern_tools(*p),
        NodeOperation::Pipeline { steps } => steps_tools(steps@),
        NodeOperation::ScatterGather { targets, .. } => targets_tools(targets@),
        NodeOperation::MapEach { inner } => operation_tools(inner),
        _ => Seq::empty(),
    }
}

/// The tools that the nodes of a graph reference, node after node.
pub open spec fn nodes_tools(nodes: Seq<ExecutionNode>) -> Seq<String>
    decreases nodes.len(),
{
    if nodes.len() == 0 {
        Seq::empty()
    } else {
        nodes_tools(nodes.drop_last()) + node_tools(nodes.last().operation)
    }
}

/// The node operation of a pattern references the tools the pattern references.
pub proof fn lemma_node_operation_tools(p: PatternSpec)
    ensures
        node_tools(spec_node_operation(p)) == pattern_tools(p),
{
}

/// The execution graph of a pattern references exactly the tools the pattern
/// references, in the same order.
pub proof fn law_graph_tools_are_pattern_tools(g: ExecutionGraph, p: PatternSpec)
    requires
        is_graph_of(g, p),
    ensures
        nodes_tools(g.nodes@) == pattern_tools(p),
{
    let n = g.nodes@;
    lemma_node_operation_tools(p);
    let a = n.drop_last().drop_last();
    assert(a.drop_last() =~= Seq::<ExecutionNode>::empty());
    assert(a.last() == n[0]);
    assert(n.drop_last().drop_last() == a);
    assert(n.drop_last().last() == n[1]);
    assert(node_tools(n[0].operation) =~= Seq::<String>::empty());
    assert(node_tools(n[2].operation) =~= Seq::<String>::empty());
    assert(nodes_tools(a.drop_last()) =~= Seq::<String>::empty());
    assert(nodes_tools(a) =~= Seq::<String>::empty());
    assert(nodes_tools(n.drop_last()) =~= node_tools(n[1].operation));
}

/// The node operation of a pattern.
fn pattern_to_operation(spec: PatternSpec) -> (r: NodeOperation)
    ensures
        r == spec_node_operation(spec),
{
    match spec {
        PatternSpec::Pipeline(ps) => NodeOperation::Pipeline { steps: ps.steps },
        PatternSpec::ScatterGather(sg) => NodeOperation::ScatterGather {
            targets: sg.targets,
            aggregation: sg.aggregation,
            timeout_ms: sg.timeout_ms,
            fail_fast: sg.fail_fast,
        },
        PatternSpec::Filter(f) => NodeOperation::Filter(f),
        PatternSpec::SchemaMap(sm) => NodeOperation::SchemaMap(sm),
        PatternSpec::MapEach(me) => NodeOperation::MapEach { inner: me.inner },
        other => NodeOperation::Pattern(Box::new(other)),
    }
}

/// Appends to `refs` the tools a node operation references.
fn collect_tool_refs(op: &NodeOperation, refs: &mut Vec<String>)
    ensures
        final(refs)@ == old(refs)@ + node_tools(*op),
{
    let mut more = match op {
        NodeOperation::ToolCall { name } => vec![name.clone()],
        NodeOperation::Pattern(p) => p.referenced_tools(),
        NodeOperation::Pipeline { steps } => steps_referenced_tools(steps),
        NodeOperation::ScatterGather { targets, .. } => targets_referenced_tools(targets),
        NodeOperation::MapEach { inner } => inner.referenced_tools(),
        _ => Vec::new(),
    };
    refs.append(&mut more);
}

impl ExecutionGraph {
    /// The graph of a pattern: input node, pattern node, output node.
    pub fn from_pattern(spec: PatternSpec) -> (r: ExecutionGraph)
        ensures
            is_graph_of(r, spec),
    {
        let mut nodes: Vec<ExecutionNode> = Vec::new();
        nodes.push(ExecutionNode { id: "_input".to_owned(), operation: NodeOperation::Input, inputs: Vec::new() });
        let main = ExecutionNode {
            id: "_main".to_owned(),
            operation: pattern_to_operation(spec),
            inputs: vec![NodeInput::Node { node_index: 0, path: None }],
        };
        nodes.push(main);
        nodes.push(ExecutionNode {
            id: "_output".to_owned(),
            operation: NodeOperation::Output,
            inputs: vec![NodeInput::Node { node_index: 1, path: None }],
        });
        let r = ExecutionGraph { nodes, entry: 0, exit: 2 };
        assert(r.nodes@[1].inputs@ == seq![NodeInput::Node { node_index: 0, path: None }]);
        assert(r.nodes@[2].inputs@ == seq![NodeInput::Node { node_index: 1, path: None }]);
        r
    }

    /// The node at `index`, if there is one.
    pub fn get_node(&self, index: usize) -> (r: Option<&ExecutionNode>)
        ensures
            index < self.nodes@.len() ==> r == Some(&self.nodes@[index as int]),
            index >= self.nodes@.len() ==> r is None,
    {
        if index < self.nodes.len() {
            Some(&self.nodes[index])
        } else {
            None
        }
    }

    /// The number of nodes.
    pub fn node_count(&self) -> (r: usize)
        ensures
            r == self.nodes@.len(),
    {
        self.nodes.len()
    }

    /// The tools that the nodes of this graph reference, node after node.
    pub fn tool_references(&self) -> (r: Vec<String>)
        ensures
            r@ == nodes_tools(self.nodes@),
    {
        let mut refs: Vec<String> = Vec::new();
        let mut i: usize = 0;
        while i < self.nodes.len()
            invariant
                i <= self.nodes@.len(),
                refs@ == nodes_tools(self.nodes@.take(i as int)),
            decreases self.nodes@.len() - i,
        {
            assert(self.nodes@.take(i + 1).drop_last() =~= self.nodes@.take(i as int));
            collect_tool_refs(&self.nodes[i].operation, &mut refs);
            i = i + 1;
        }
        assert(self.nodes@.take(self.nodes@.len() as int) =~= self.nodes@);
        refs
    }
}

impl CompositionSpec {
    /// What the registry reads of a composition's pattern: the pattern's name and
    /// the tools it references, in order.
    pub fn from_pattern(spec: &PatternSpec) -> (r: CompositionSpec)
        ensures
            r.pattern_name@ == spec_kind_name(spec_kind(*spec)),
            r.referenced_tools@ == pattern_tools(*spec),
    {
        CompositionSpec { pattern_name: spec.pattern_name().to_owned(), referenced_tools: spec.referenced_tools() }
    }
}

impl PatternKind {
    /// The pattern's name for error messages.
    pub fn name(&self) -> (r: &'static str)
        ensures
            r@ == spec_kind_name(*self),
    {
        match self {
            PatternKind::Pipeline => "pipeline",
            PatternKind::ScatterGather => "scatter_gather",
            PatternKind::Filter => "filter",
            PatternKind::SchemaMap => "schema_map",
            PatternKind::MapEach => "map_each",
            PatternKind::Retry => "retry",
            PatternKind::Timeout => "timeout",
            PatternKind::Cache => "cache",
            PatternKind::Idempotent => "idempotent",
            PatternKind::CircuitBreaker => "circuit_breaker",
            PatternKind::DeadLetter => "dead_letter",
            PatternKind::Saga => "saga",
            PatternKind::ClaimCheck => "claim_check",
            PatternKind::Throttle => "throttle",
            PatternKind::Router => "router",
            PatternKind::Enricher => "enricher",
            PatternKind::WireTap => "wire_tap",
            PatternKind::RecipientList => "recipient_list",
            PatternKind::CapabilityRouter => "capability_router",
            PatternKind::SemanticDedup => "semantic_dedup",
            PatternKind::ConfidenceAggregator => "confidence_aggregator",
        }
    }

    /// True for the stateful and routing patterns, whose runtime is not implemented.
    pub fn is_stateful_unimplemented(&self) -> (r: bool)
        ensures
            r == !spec_is_stateless(*self),
    {
        match self {
            PatternKind::Pipeline | PatternKind::ScatterGather | PatternKind::Filter
            | PatternKind::SchemaMap | PatternKind::MapEach => false,
            _ => true,
        }
    }

    /// The error the executor answers a pattern of this kind with, or `None` where
    /// it runs the pattern (the stateless patterns and the timeout).
    pub fn not_implemented_error(&self) -> (r: Option<ExecutionError>)
        ensures
            spec_is_executed(*self) ==> r is None,
            !spec_is_executed(*self) ==> (r matches Some(ExecutionError::StatefulPatternNotImplemented { pattern, details })
                && pattern@ == spec_kind_name(*self) && details@ == spec_unimplemented_details(*self)),
    {
        let details: &str = match self {
            PatternKind::Pipeline | PatternKind::ScatterGather | PatternKind::Filter
            | PatternKind::SchemaMap | PatternKind::MapEach | PatternKind::Timeout => {
                return None;
            },
            PatternKind::Retry => "The retry pattern requires a state store for tracking attempt counts and backoff delays. Configure a state store backend (e.g., Redis, in-memory) and implement RetryExecutor to enable this pattern.",
            PatternKind::Cache => "The cache pattern requires a cache store backend (e.g., Redis, in-memory LRU). Configure a cache store and implement CacheExecutor to enable read-through caching.",
            PatternKind::Idempotent => "The idempotent pattern requires a store for tracking processed request keys. Configure a store backend (e.g., Redis, database) and implement IdempotentExecutor to prevent duplicate processing.",
            PatternKind::CircuitBreaker => "The circuit breaker pattern requires a store for tracking failure counts and circuit state. Configure a store backend and implement CircuitBreakerExecutor to enable fail-fast behavior with automatic recovery.",
            PatternKind::DeadLetter => "The dead letter pattern requires a queue or storage backend for capturing failed messages. Configure a dead letter tool and implement DeadLetterExecutor to enable failure capture for later processing.",
            PatternKind::Saga => "The saga pattern requires a store for tracking saga state and enabling recovery. Configure a durable store backend and implement SagaExecutor to enable distributed transactions with compensation.",
            PatternKind::ClaimCheck => "The claim check pattern requires blob storage tools for externalizing large payloads. Configure store_tool and retrieve_tool backends and implement ClaimCheckExecutor to enable payload externalization.",
            PatternKind::Throttle => "The throttle pattern requires a rate limiter implementation. For single-instance: use in-memory rate limiter (e.g., governor crate). For distributed: configure a store backend with atomic increment support.",
            PatternKind::Router => "The router pattern provides content-based routing to different tools based on predicates. Implement RouterExecutor to evaluate route conditions and dispatch to matching operations.",
            PatternKind::Enricher => "The enricher pattern augments input with parallel enrichment calls. Implement EnricherExecutor to run enrichments concurrently and merge results.",
            PatternKind::WireTap => "The wire tap pattern sends copies of data to side channels without affecting main flow. Implement WireTapExecutor to spawn fire-and-forget tap operations.",
            PatternKind::RecipientList => "The recipient list pattern dynamically determines targets at runtime from input data. Implement RecipientListExecutor to resolve recipients and dispatch operations.",
            PatternKind::CapabilityRouter => "The capability router pattern routes based on tool capabilities from registry introspection. Implement CapabilityRouterExecutor to query registry for matching tools.",
            PatternKind::SemanticDedup => "The semantic dedup pattern deduplicates based on embedding similarity. Implement SemanticDedupExecutor with embedding service integration.",
            PatternKind::ConfidenceAggregator => "The confidence aggregator pattern provides weighted aggregation based on source reliability. Implement ConfidenceAggregatorExecutor with consensus and conflict detection logic.",
        };
        Some(ExecutionError::StatefulPatternNotImplemented {
            pattern: self.name().to_owned(),
            details: details.to_owned(),
        })
    }
}

} // verus!

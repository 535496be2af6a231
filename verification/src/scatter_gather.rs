//! The scatter-gather pattern: results of several targets, gathered into one
//! array and shaped by a sequence of aggregation operations.
use vstd::prelude::*;
use crate::json::{JsonValue, JsonView, members_view, items_view, spec_kind_name, spec_insert, object_insert, group_json_view};
use crate::text::{string_eq, concat_str};

use crate::jsonpath::{jsonpath_check, jsonpath_parse_error, jsonpath_nodes, jsonpath_query, first_node, query_first};
use crate::pipeline::{PipelineExecutor, spec_query_value};

verus! {

broadcast use group_json_view;

/// Errors of pattern execution.
#[derive(Debug, Clone, PartialEq, Eq)]
pub enum ExecutionError {
    ToolNotFound(String),
    ToolExecutionFailed(String),
    PatternExecutionFailed(String),
    InvalidInput(String),
    Timeout(u32),
    AllTargetsFailed,
    JsonPathError(String),
    PredicateError(String),
    TypeError { expected: String, actual: String },
    Internal(String),
    StatefulPatternNotImplemented { pattern: String, details: String },
    NotImplemented(String),
}

impl ExecutionError {
    /// A copy of this error.
    pub fn duplicate(&self) -> (r: ExecutionError)
        ensures
            r == *self,
    {
        match self {
            ExecutionError::ToolNotFound(m) => ExecutionError::ToolNotFound(m.clone()),
            ExecutionError::ToolExecutionFailed(m) => ExecutionError::ToolExecutionFailed(m.clone()),
            ExecutionError::PatternExecutionFailed(m) => ExecutionError::PatternExecutionFailed(m.clone()),
            ExecutionError::InvalidInput(m) => ExecutionError::InvalidInput(m.clone()),
            ExecutionError::Timeout(ms) => ExecutionError::Timeout(*ms),
            ExecutionError::AllTargetsFailed => ExecutionError::AllTargetsFailed,
            ExecutionError::JsonPathError(m) => ExecutionError::JsonPathError(m.clone()),
            ExecutionError::PredicateError(m) => ExecutionError::PredicateError(m.clone()),
            ExecutionError::TypeError { expected, actual } => ExecutionError::TypeError {
                expected: expected.clone(),
                actual: actual.clone(),
            },
            ExecutionError::Internal(m) => ExecutionError::Internal(m.clone()),
            ExecutionError::StatefulPatternNotImplemented { pattern, details } => {
                ExecutionError::StatefulPatternNotImplemented { pattern: pattern.clone(), details: details.clone() }
            },
            ExecutionError::NotImplemented(m) => ExecutionError::NotImplemented(m.clone()),
        }
    }
}

/// Reference to a tool, optionally on a specific server/backend.
#[derive(Debug, Clone, PartialEq, Eq)]
pub struct ToolRef {
    /// Tool name
    pub tool: String,
    /// Server/backend name (None = resolve from registry virtual tools)
    pub server: Option<String>,
}

impl ToolRef {
    /// A reference to a tool without a server.
    pub fn new(tool: String) -> (r: ToolRef)
        ensures
            r.tool == tool,
            r.server is None,
    {
        ToolRef { tool, server: None }
    }

    /// A reference to a tool on a server.
    pub fn with_server(tool: String, server: String) -> (r: ToolRef)
        ensures
            r.tool == tool,
            r.server == Some(server),
    {
        ToolRef { tool, server: Some(server) }
    }
}

/// Wrap operation: puts the result in an object under `field`.
#[derive(Debug, Clone, PartialEq, Eq)]
pub struct WrapOp {
    /// The field name to wrap the array under
    pub field: String,
}

/// Extract operation: a JSONPath evaluated on each element.
#[derive(Debug, Clone, PartialEq, Eq)]
pub struct ExtractOp {
    /// JSONPath to extract from each element
    pub path: String,
}

/// Sort operation.
#[derive(Debug, Clone, PartialEq, Eq)]
pub struct SortOp {
    /// JSONPath to the field to sort by
    pub field: String,
    /// Sort order: "asc" or "desc"
    pub order: String,
}

/// Dedupe operation.
#[derive(Debug, Clone, PartialEq, Eq)]
pub struct DedupeOp {
    /// JSONPath to the field to dedupe by
    pub field: String,
}

/// Limit operation.
#[derive(Debug, Clone, PartialEq, Eq)]
pub struct LimitOp {
    /// Maximum number of results
    pub count: u32,
}

/// A single aggregation operation.
#[derive(Debug, Clone, PartialEq, Eq)]
pub enum AggregationOp {
    /// Flatten array of arrays into single array
    Flatten(bool),
    /// Sort by field
    Sort(SortOp),
    /// Deduplicate by field
    Dedupe(DedupeOp),
    /// Take first N results
    Limit(LimitOp),
    /// Keep arrays nested (no flattening)
    Concat(bool),
    /// Merge objects (for object results)
    Merge(bool),
    /// Wrap the result in an object with a specified field name
    Wrap(WrapOp),
    /// Extract a field from each element using JSONPath
    Extract(ExtractOp),
}

/// How to combine scatter-gather results: operations applied in order.
#[derive(Debug, Clone, PartialEq, Eq)]
pub struct AggregationStrategy {
    pub ops: Vec<AggregationOp>,
}

impl Default for AggregationStrategy {
    fn default() -> (r: AggregationStrategy)
        ensures
            r.ops@ == seq![AggregationOp::Flatten(true)],
    {
        AggregationStrategy { ops: vec![AggregationOp::Flatten(true)] }
    }
}

/// The error for a value that is not an array.
pub open spec fn not_array_error(v: JsonView, e: ExecutionError) -> bool {
    e matches ExecutionError::TypeError { expected, actual } && expected@ == "array"@ && actual@ == spec_kind_name(v)
}

/// Items with the items of nested arrays spliced in, one level deep.
pub open spec fn spec_flatten(items: Seq<JsonView>) -> Seq<JsonView>
    decreases items.len(),
{
    if items.len() == 0 {
        Seq::empty()
    } else {
        let rest = spec_flatten(items.drop_last());
        match items.last() {
            JsonView::Array(inner) => rest + inner,
            other => rest.push(other),
        }
    }
}

/// The members of the objects among the values merged in order, a later value
/// of a key replacing an earlier one; other values are ignored.
pub open spec fn spec_merge(values: Seq<JsonView>) -> Seq<(Seq<char>, JsonView)>
    decreases values.len(),
{
    if values.len() == 0 {
        Seq::empty()
    } else {
        let acc = spec_merge(values.drop_last());
        match values.last() {
            JsonView::Object(ms) => merge_members(acc, ms),
            _ => acc,
        }
    }
}

/// `acc` with each member of `ms` set in turn.
pub open spec fn merge_members(acc: Seq<(Seq<char>, JsonView)>, ms: Seq<(Seq<char>, JsonView)>) -> Seq<(Seq<char>, JsonView)>
    decreases ms.len(),
{
    if ms.len() == 0 {
        acc
    } else {
        let a = merge_members(acc, ms.drop_last());
        spec_insert(a, ms.last().0, ms.last().1)
    }
}

/// Items deduplicated by their keys: an item whose key was seen on an earlier
/// kept item is dropped; an item without a key is always kept.
pub open spec fn spec_dedupe<K>(items: Seq<JsonView>, keys: Seq<Option<K>>) -> Seq<JsonView>
    decreases items.len(),
{
    if items.len() == 0 {
        Seq::empty()
    } else {
        let n = items.len() - 1;
        let rest = spec_dedupe(items.drop_last(), keys);
        match keys[n] {
            Some(k) => if (exists|j: int| 0 <= j < n && #[trigger] keys[j] == Some(k)) {
                rest
            } else {
                rest.push(items[n])
            },
            None => rest.push(items[n]),
        }
    }
}

/// The values of the successful results, in order.
pub open spec fn spec_successes(results: Seq<Result<JsonValue, ExecutionError>>) -> Seq<JsonView>
    decreases results.len(),
{
    if results.len() == 0 {
        Seq::empty()
    } else {
        match results.last() {
            Ok(v) => spec_successes(results.drop_last()).push(v@),
            Err(_) => spec_successes(results.drop_last()),
        }
    }
}

/// The first failure among the results.
pub open spec fn spec_first_failure(results: Seq<Result<JsonValue, ExecutionError>>) -> Option<ExecutionError>
    decreases results.len(),
{
    if results.len() == 0 {
        None
    } else {
        match spec_first_failure(results.drop_last()) {
            Some(e) => Some(e),
            None => match results.last() {
                Ok(_) => None,
                Err(e) => Some(e),
            },
        }
    }
}

/// The first failure among the results is the error of the failing result with
/// the least index: there is none exactly when every result succeeded, and when
/// there is one, it is the error of some failing result that no failing result
/// comes before.
pub proof fn law_first_failure(results: Seq<Result<JsonValue, ExecutionError>>)
    ensures
        spec_first_failure(results) is None <==> forall|i: int| 0 <= i < results.len() ==> #[trigger] results[i] is Ok,
        forall|i: int|
            0 <= i < results.len() && #[trigger] results[i] is Err && (forall|j: int| 0 <= j < i ==> results[j] is Ok)
                ==> spec_first_failure(results) == Some(results[i]->Err_0),
    decreases results.len(),
{
    if results.len() > 0 {
        let init = results.drop_last();
        law_first_failure(init);
        assert forall|i: int| 0 <= i < init.len() implies init[i] == results[i] by {}
        if forall|i: int| 0 <= i < results.len() ==> #[trigger] results[i] is Ok {
            assert forall|i: int| 0 <= i < init.len() implies #[trigger] init[i] is Ok by {
                assert(results[i] is Ok);
            }
            assert(results.last() is Ok);
        } else {
            let k = choose|k: int| 0 <= k < results.len() && !(#[trigger] results[k] is Ok);
            if k < init.len() {
                assert(init[k] is Err);
            } else {
                if spec_first_failure(init) is None {
                    assert(results.last() is Err);
                }
            }
        }
        assert forall|i: int|
            0 <= i < results.len() && #[trigger] results[i] is Err && (forall|j: int| 0 <= j < i ==> results[j] is Ok)
                implies spec_first_failure(results) == Some(results[i]->Err_0) by {
            if i < init.len() {
                assert(init[i] is Err);
                assert forall|j: int| 0 <= j < i implies init[j] is Ok by {
                    assert(results[j] is Ok);
                }
            } else {
                assert forall|j: int| 0 <= j < init.len() implies #[trigger] init[j] is Ok by {
                    assert(results[j] is Ok);
                }
            }
        }
    }
}

/// The successful values are those of the successful results, in order: each
/// comes from a successful result, at strictly increasing positions, and every
/// successful result gives one.
pub proof fn law_successes(results: Seq<Result<JsonValue, ExecutionError>>) -> (idx: Seq<int>)
    ensures
        spec_successes(results).len() == idx.len(),
        forall|k: int|
            0 <= k < idx.len() ==> 0 <= #[trigger] idx[k] < results.len() && (results[idx[k]] matches Ok(v)
                && v@ == spec_successes(results)[k]),
        forall|k: int, l: int| 0 <= k < l < idx.len() ==> #[trigger] idx[k] < #[trigger] idx[l],
        forall|i: int| 0 <= i < results.len() && #[trigger] results[i] is Ok ==> idx.contains(i),
    decreases results.len(),
{
    if results.len() == 0 {
        Seq::empty()
    } else {
        let init = results.drop_last();
        let n = init.len() as int;
        let prev = law_successes(init);
        assert forall|i: int| 0 <= i < init.len() implies init[i] == results[i] by {}
        match results.last() {
            Ok(v) => {
                let idx = prev.push(n);
                assert forall|k: int| 0 <= k < idx.len() implies 0 <= #[trigger] idx[k] < results.len() && (results[idx[k]] matches Ok(v)
                    && v@ == spec_successes(results)[k]) by {
                    if k < prev.len() {
                        assert(idx[k] == prev[k]);
                    }
                }
                assert forall|k: int, l: int| 0 <= k < l < idx.len() implies #[trigger] idx[k] < #[trigger] idx[l] by {
                    assert(idx[k] == prev[k]);
                    if l < prev.len() {
                        assert(idx[l] == prev[l]);
                    }
                }
                assert forall|i: int| 0 <= i < results.len() && #[trigger] results[i] is Ok implies idx.contains(i) by {
                    if i < n {
                        assert(init[i] is Ok);
                        let k = choose|k: int| 0 <= k < prev.len() && prev[k] == i;
                        assert(idx[k] == i);
                    } else {
                        assert(idx[prev.len() as int] == n);
                    }
                }
                idx
            },
            Err(_) => {
                assert forall|i: int| 0 <= i < results.len() && #[trigger] results[i] is Ok implies prev.contains(i) by {
                    assert(i < n);
                    assert(init[i] is Ok);
                }
                prev
            },
        }
    }
}

proof fn lemma_dedupe_keys<K>(items: Seq<JsonView>, keys: Seq<Option<K>>, f: spec_fn(JsonView) -> Option<K>)
    requires
        keys.len() >= items.len(),
        forall|j: int| 0 <= j < items.len() ==> keys[j] == f(items[j]),
    ensures
        forall|a: int| 0 <= a < spec_dedupe(items, keys).len() ==> exists|j: int|
            0 <= j < items.len() && #[trigger] spec_dedupe(items, keys)[a] == items[j],
        forall|a: int, b: int|
            0 <= a < b < spec_dedupe(items, keys).len() && f(#[trigger] spec_dedupe(items, keys)[a]) is Some ==> f(
                spec_dedupe(items, keys)[a],
            ) != f(#[trigger] spec_dedupe(items, keys)[b]),
    decreases items.len(),
{
    if items.len() > 0 {
        let n = items.len() - 1;
        let init = items.drop_last();
        lemma_dedupe_keys(init, keys, f);
        let rest = spec_dedupe(init, keys);
        let kept = spec_dedupe(items, keys);
        assert forall|a: int| 0 <= a < rest.len() implies exists|j: int| 0 <= j < n && #[trigger] rest[a] == items[j] by {
            let j = choose|j: int| 0 <= j < init.len() && #[trigger] rest[a] == init[j];
            assert(init[j] == items[j]);
        }
        if kept.len() > rest.len() {
            assert(kept == rest.push(items[n]));
            assert forall|a: int| 0 <= a < kept.len() implies exists|j: int| 0 <= j < items.len() && #[trigger] kept[a] == items[j] by {
                if a < rest.len() {
                    assert(kept[a] == rest[a]);
                } else {
                    assert(kept[a] == items[n]);
                }
            }
            assert forall|a: int, b: int|
                0 <= a < b < kept.len() && f(#[trigger] kept[a]) is Some implies f(kept[a]) != f(#[trigger] kept[b]) by {
                if b < rest.len() {
                    assert(kept[a] == rest[a] && kept[b] == rest[b]);
                } else {
                    assert(kept[a] == rest[a]);
                    let j = choose|j: int| 0 <= j < n && #[trigger] rest[a] == items[j];
                    assert(f(kept[a]) == keys[j]);
                    assert(f(kept[b]) == keys[n]);
                }
            }
        } else {
            assert(kept == rest);
            assert forall|a: int| 0 <= a < kept.len() implies exists|j: int| 0 <= j < items.len() && #[trigger] kept[a] == items[j] by {
                let j = choose|j: int| 0 <= j < n && #[trigger] rest[a] == items[j];
            }
        }
    }
}

/// Deduplication keeps no two items with the same key: whatever the key of an
/// item is, two kept items never share one.
pub proof fn law_dedupe_distinct_keys<K>(items: Seq<JsonView>, f: spec_fn(JsonView) -> Option<K>)
    ensures
        ({
            let kept = spec_dedupe(items, items.map_values(f));
            forall|a: int, b: int|
                0 <= a < b < kept.len() && f(#[trigger] kept[a]) is Some ==> f(kept[a]) != f(#[trigger] kept[b])
        }),
{
    lemma_dedupe_keys(items, items.map_values(f), f);
}

/// Executor of the scatter-gather pattern's aggregation operations.
pub struct ScatterGatherExecutor;

impl ScatterGatherExecutor {
    /// The error for a value that is not an array.
    fn not_array(value: &JsonValue) -> (e: ExecutionError)
        ensures
            not_array_error(value@, e),
    {
        ExecutionError::TypeError { expected: "array".to_owned(), actual: value.kind_name() }
    }

    /// Flattens nested arrays one level deep.
    pub fn flatten(value: &JsonValue) -> (r: Result<JsonValue, ExecutionError>)
        ensures
            match value@ {
                JsonView::Array(items) => r matches Ok(v) && v@ == JsonView::Array(spec_flatten(items)),
                _ => r matches Err(e) && not_array_error(value@, e),
            },
    {
        match value {
            JsonValue::Array(items) => {
                let ghost xs = items_view(items@);
                let mut out: Vec<JsonValue> = Vec::new();
                let mut i: usize = 0;
                assert(xs.take(0) =~= Seq::<JsonView>::empty());
                while i < items.len()
                    invariant
                        i <= items@.len(),
                        xs == items_view(items@),
                        items_view(out@) == spec_flatten(xs.take(i as int)),
                    decreases items@.len() - i,
                {
                    assert(xs.take(i + 1).drop_last() =~= xs.take(i as int));
                    assert(xs.take(i + 1).last() == items@[i as int]@);
                    match &items[i] {
                        JsonValue::Array(inner) => {
                            let ghost prev = out@;
                            let mut j: usize = 0;
                            while j < inner.len()
                                invariant
                                    j <= inner@.len(),
                                    items_view(out@) == items_view(prev) + items_view(inner@).take(j as int),
                                decreases inner@.len() - j,
                            {
                                let x = inner[j].duplicate();
                                let ghost before = out@;
                                out.push(x);
                                assert(items_view(out@) =~= items_view(before).push(x@));
                                assert(items_view(inner@).take(j + 1) =~= items_view(inner@).take(j as int).push(
                                    inner@[j as int]@,
                                ));
                                j = j + 1;
                            }
                            assert(items_view(inner@).take(inner@.len() as int) =~= items_view(inner@));
                        },
                        other => {
                            let x = other.duplicate();
                            let ghost before = out@;
                            out.push(x);
                            assert(items_view(out@) =~= items_view(before).push(x@));
                        },
                    }
                    i = i + 1;
                }
                assert(xs.take(items@.len() as int) =~= xs);
                Ok(JsonValue::Array(out))
            },
            _ => Err(Self::not_array(value)),
        }
    }

    /// The first `count` items.
    pub fn limit(value: &JsonValue, count: usize) -> (r: Result<JsonValue, ExecutionError>)
        ensures
            match value@ {
                JsonView::Array(items) => r matches Ok(v) && v@ == JsonView::Array(
                    if count <= items.len() { items.take(count as int) } else { items },
                ),
                _ => r matches Err(e) && not_array_error(value@, e),
            },
    {
        match value {
            JsonValue::Array(items) => {
                let n = if count <= items.len() { count } else { items.len() };
                let mut out: Vec<JsonValue> = Vec::new();
                let mut i: usize = 0;
                while i < n
                    invariant
                        i <= n <= items@.len(),
                        items_view(out@) == items_view(items@).take(i as int),
                    decreases n - i,
                {
                    let x = items[i].duplicate();
                    let ghost before = out@;
                    out.push(x);
                    assert(items_view(out@) =~= items_view(before).push(x@));
                    assert(items_view(items@).take(i + 1) =~= items_view(items@).take(i as int).push(items@[i as int]@));
                    i = i + 1;
                }
                assert(count > items@.len() ==> items_view(items@).take(n as int) =~= items_view(items@));
                Ok(JsonValue::Array(out))
            },
            _ => Err(Self::not_array(value)),
        }
    }

    /// Merges the objects among the gathered values into one object.
    pub fn merge(values: &Vec<JsonValue>) -> (r: JsonValue)
        ensures
            r@ == JsonView::Object(spec_merge(items_view(values@))),
    {
        let ghost vs = items_view(values@);
        let mut acc: Vec<(String, JsonValue)> = Vec::new();
        let mut i: usize = 0;
        assert(vs.take(0) =~= Seq::<JsonView>::empty());
        assert(members_view(acc@) =~= Seq::<(Seq<char>, JsonView)>::empty());
        while i < values.len()
            invariant
                i <= values@.len(),
                vs == items_view(values@),
                members_view(acc@) == spec_merge(vs.take(i as int)),
            decreases values@.len() - i,
        {
            assert(vs.take(i + 1).drop_last() =~= vs.take(i as int));
            assert(vs.take(i + 1).last() == values@[i as int]@);
            match &values[i] {
                JsonValue::Object(ms) => {
                    let ghost base = members_view(acc@);
                    let ghost mv = members_view(ms@);
                    let mut j: usize = 0;
                    assert(mv.take(0) =~= Seq::<(Seq<char>, JsonView)>::empty());
                    while j < ms.len()
                        invariant
                            j <= ms@.len(),
                            mv == members_view(ms@),
                            members_view(acc@) == merge_members(base, mv.take(j as int)),
                        decreases ms@.len() - j,
                    {
                        assert(mv.take(j + 1).drop_last() =~= mv.take(j as int));
                        assert(mv.take(j + 1).last() == (ms@[j as int].0@, ms@[j as int].1@));
                        object_insert(&mut acc, ms[j].0.clone(), ms[j].1.duplicate());
                        j = j + 1;
                    }
                    assert(mv.take(ms@.len() as int) =~= mv);
                },
                _ => {},
            }
            i = i + 1;
        }
        assert(vs.take(values@.len() as int) =~= vs);
        JsonValue::Object(acc)
    }

    /// Puts a value in an object under `field`.
    pub fn wrap(value: &JsonValue, field: &String) -> (r: JsonValue)
        ensures
            r@ == JsonView::Object(seq![(field@, value@)]),
    {
        let members = vec![(field.clone(), value.duplicate())];
        assert(members_view(members@) =~= seq![(field@, value@)]);
        JsonValue::Object(members)
    }

    /// What the targets' results give the aggregation: with `fail_fast`, the first
    /// failure if any failed; otherwise `AllTargetsFailed` when none succeeded; else
    /// the successful values, in order.
    pub fn gather_results(results: Vec<Result<JsonValue, ExecutionError>>, fail_fast: bool) -> (r: Result<
        Vec<JsonValue>,
        ExecutionError,
    >)
        ensures
            fail_fast && spec_first_failure(results@) is Some ==> r == Err::<Vec<JsonValue>, ExecutionError>(
                spec_first_failure(results@)->0,
            ),
            fail_fast ==> forall|i: int|
                0 <= i < results@.len() && #[trigger] results@[i] is Err && (forall|j: int| 0 <= j < i ==> results@[j] is Ok)
                    ==> r == Err::<Vec<JsonValue>, ExecutionError>(results@[i]->Err_0),
            (!fail_fast || forall|i: int| 0 <= i < results@.len() ==> #[trigger] results@[i] is Ok) ==> (
            (forall|i: int| 0 <= i < results@.len() ==> #[trigger] results@[i] is Err) ==> r matches Err(ExecutionError::AllTargetsFailed)),
            !(fail_fast && spec_first_failure(results@) is Some) ==> if spec_successes(results@).len() == 0 {
                r matches Err(ExecutionError::AllTargetsFailed)
            } else {
                r matches Ok(vs) && items_view(vs@) == spec_successes(results@)
            },
    {
        let mut values: Vec<JsonValue> = Vec::new();
        let mut first: Option<ExecutionError> = None;
        let mut i: usize = 0;
        assert(results@.take(0) =~= Seq::<Result<JsonValue, ExecutionError>>::empty());
        while i < results.len()
            invariant
                i <= results@.len(),
                items_view(values@) == spec_successes(results@.take(i as int)),
                first == spec_first_failure(results@.take(i as int)),
            decreases results@.len() - i,
        {
            assert(results@.take(i + 1).drop_last() =~= results@.take(i as int));
            assert(results@.take(i + 1).last() == results@[i as int]);
            match &results[i] {
                Ok(v) => {
                    let x = v.duplicate();
                    let ghost before = values@;
                    values.push(x);
                    assert(items_view(values@) =~= items_view(before).push(x@));
                },
                Err(e) => {
                    if first.is_none() {
                        first = Some(e.duplicate());
                    }
                },
            }
            i = i + 1;
        }
        assert(results@.take(results@.len() as int) =~= results@);
        proof {
            law_first_failure(results@);
            let idx = law_successes(results@);
            if forall|i: int| 0 <= i < results@.len() ==> #[trigger] results@[i] is Err {
                if idx.len() > 0 {
                    assert(results@[idx[0]] is Ok);
                }
            }
        }
        if fail_fast {
            match first {
                Some(e) => return Err(e),
                None => {},
            }
        }
        if values.len() == 0 {
            return Err(ExecutionError::AllTargetsFailed);
        }
        Ok(values)
    }

    /// The `extract` aggregation: each element of an array replaced by the value of
    /// a JSONPath in it (see `spec_query_value`).
    pub fn extract(value: &JsonValue, path: &str) -> (r: Result<JsonValue, ExecutionError>)
        ensures
            match value@ {
                JsonView::Array(items) => match jsonpath_parse_error(path@) {
                    Some(m) => r matches Err(ExecutionError::JsonPathError(e)) && e@ == path@ + ": "@ + m,
                    None => r matches Ok(v) && v@ == JsonView::Array(
                        items.map_values(|x: JsonView| spec_query_value(jsonpath_nodes(path@, x))),
                    ),
                },
                _ => r matches Err(e) && not_array_error(value@, e),
            },
    {
        let items = match value {
            JsonValue::Array(items) => items,
            _ => return Err(Self::not_array(value)),
        };
        match jsonpath_check(path) {
            Some(e) => {
                let m = concat_str(path, ": ");
                return Err(ExecutionError::JsonPathError(concat_str(m.as_str(), e.as_str())));
            },
            None => {},
        }
        let mut out: Vec<JsonValue> = Vec::new();
        let mut i: usize = 0;
        while i < items.len()
            invariant
                i <= items@.len(),
                out@.len() == i,
                jsonpath_parse_error(path@) is None,
                forall|q: int| 0 <= q < i ==> (#[trigger] out@[q])@ == spec_query_value(jsonpath_nodes(path@, items@[q]@)),
            decreases items@.len() - i,
        {
            let v = match jsonpath_query(path, &items[i]) {
                Ok(nodes) => PipelineExecutor::query_value(nodes),
                Err(_) => JsonValue::Null,
            };
            out.push(v);
            i = i + 1;
        }
        assert(items_view(out@) =~= items_view(items@).map_values(|x: JsonView| spec_query_value(jsonpath_nodes(path@, x))));
        Ok(JsonValue::Array(out))
    }

    /// Deduplicates the items of an array by the first node that `field` (a
    /// JSONPath) selects in each: the first item of each key is kept, and every
    /// item in which the path selects nothing. A value that is not an array, or a
    /// field that is not a JSONPath, is an error, in that order.
    pub fn dedupe(value: &JsonValue, field: &str) -> (r: Result<JsonValue, ExecutionError>)
        ensures
            match value@ {
                JsonView::Array(items) => match jsonpath_parse_error(field@) {
                    Some(m) => r matches Err(ExecutionError::JsonPathError(e)) && e@ == field@ + ": "@ + m,
                    None => r matches Ok(v) && v@ == JsonView::Array(
                        spec_dedupe(items, items.map_values(|x: JsonView| first_node(field@, x))),
                    ),
                },
                _ => r matches Err(e) && not_array_error(value@, e),
            },
            r matches Ok(v) ==> (v@ matches JsonView::Array(kept) && forall|a: int, b: int|
                0 <= a < b < kept.len() && first_node(field@, #[trigger] kept[a]) is Some ==> first_node(field@, kept[a])
                    != first_node(field@, #[trigger] kept[b])),
    {
        let items = match value {
            JsonValue::Array(items) => items,
            _ => return Err(Self::not_array(value)),
        };
        match jsonpath_check(field) {
            Some(e) => {
                let m = concat_str(field, ": ");
                return Err(ExecutionError::JsonPathError(concat_str(m.as_str(), e.as_str())));
            },
            None => {},
        }
        let ghost xs = items_view(items@);
        let ghost ks = xs.map_values(|x: JsonView| first_node(field@, x));
        let mut keys: Vec<Option<JsonValue>> = Vec::new();
        let mut out: Vec<JsonValue> = Vec::new();
        let mut i: usize = 0;
        assert(xs.take(0) =~= Seq::<JsonView>::empty());
        while i < items.len()
            invariant
                i <= items@.len(),
                keys@.len() == i,
                jsonpath_parse_error(field@) is None,
                xs == items_view(items@),
                ks == xs.map_values(|x: JsonView| first_node(field@, x)),
                forall|q: int| 0 <= q < i ==> match #[trigger] keys@[q] {
                    Some(k) => ks[q] == Some(k@),
                    None => ks[q] is None,
                },
                items_view(out@) == spec_dedupe(xs.take(i as int), ks),
            decreases items@.len() - i,
        {
            assert(xs.take(i + 1).drop_last() =~= xs.take(i as int));
            assert(xs.take(i + 1)[i as int] == items@[i as int]@);
            let key = match query_first(field, &items[i]) {
                Ok(k) => k,
                Err(_) => None,
            };
            assert(ks[i as int] == first_node(field@, items@[i as int]@));
            let keep = match &key {
                None => true,
                Some(k) => {
                    let mut seen = false;
                    let mut j: usize = 0;
                    while j < i
                        invariant
                            j <= i == keys@.len(),
                            i < ks.len(),
                            ks[i as int] == Some(k@),
                            forall|q: int| 0 <= q < i ==> match #[trigger] keys@[q] {
                                Some(k) => ks[q] == Some(k@),
                                None => ks[q] is None,
                            },
                            seen == exists|q: int| 0 <= q < j && #[trigger] ks[q] == Some(k@),
                        decreases i - j,
                    {
                        match &keys[j] {
                            Some(kj) => {
                                if kj.equals(k) {
                                    assert(ks[j as int] == Some(k@));
                                    seen = true;
                                } else {
                                    assert(ks[j as int] != Some(k@));
                                }
                            },
                            None => {
                                assert(ks[j as int] != Some(k@));
                            },
                        }
                        j = j + 1;
                    }
                    !seen
                },
            };
            if keep {
                let x = items[i].duplicate();
                let ghost before = out@;
                out.push(x);
                assert(items_view(out@) =~= items_view(before).push(x@));
            }
            keys.push(key);
            i = i + 1;
        }
        assert(xs.take(items@.len() as int) =~= xs);
        proof {
            let f = |x: JsonView| first_node(field@, x);
            law_dedupe_distinct_keys(xs, f);
            assert(xs.map_values(f) =~= ks);
        }
        Ok(JsonValue::Array(out))
    }

    /// Deduplicates items by their keys (the serialized value each item has at
    /// the dedupe field, when it has one): the first item of each key is kept,
    /// and every item without a key.
    pub fn dedupe_by_keys(value: &JsonValue, keys: &Vec<Option<String>>) -> (r: Result<JsonValue, ExecutionError>)
        requires
            value@ matches JsonView::Array(items) ==> items.len() == keys@.len(),
        ensures
            match value@ {
                JsonView::Array(items) => (r matches Ok(v) && v@ == JsonView::Array(
                    spec_dedupe(items, keys@.map_values(|k: Option<String>| match k { Some(s) => Some(s@), None => None })),
                )),
                _ => r matches Err(e) && not_array_error(value@, e),
            },
    {
        match value {
            JsonValue::Array(items) => {
                assert(items@.len() == keys@.len());
                let ghost xs = items_view(items@);
                let ghost ks = keys@.map_values(|k: Option<String>| match k { Some(s) => Some(s@), None => None });
                let mut out: Vec<JsonValue> = Vec::new();
                let mut i: usize = 0;
                assert(xs.take(0) =~= Seq::<JsonView>::empty());
                while i < items.len()
                    invariant
                        i <= items@.len() == keys@.len(),
                        xs == items_view(items@),
                        ks == keys@.map_values(|k: Option<String>| match k { Some(s) => Some(s@), None => None }),
                        items_view(out@) == spec_dedupe(xs.take(i as int), ks),
                    decreases items@.len() - i,
                {
                    assert(xs.take(i + 1).drop_last() =~= xs.take(i as int));
                    assert(xs.take(i + 1)[i as int] == items@[i as int]@);
                    let keep = match &keys[i] {
                        None => true,
                        Some(k) => {
                            let mut seen = false;
                            let mut j: usize = 0;
                            while j < i
                                invariant
                                    j <= i < keys@.len(),
                                    ks == keys@.map_values(|k: Option<String>| match k { Some(s) => Some(s@), None => None }),
                                    keys@[i as int] == Some(*k),
                                    seen == exists|q: int| 0 <= q < j && #[trigger] ks[q] == Some(k@),
                                decreases i - j,
                            {
                                match &keys[j] {
                                    Some(kj) => {
                                        if string_eq(kj, k) {
                                            assert(ks[j as int] == Some(k@));
                                            seen = true;
                                        } else {
                                            assert(ks[j as int] != Some(k@));
                                        }
                                    },
                                    None => {
                                        assert(ks[j as int] != Some(k@));
                                    },
                                }
                                j = j + 1;
                            }
                            !seen
                        },
                    };
                    if keep {
                        let x = items[i].duplicate();
                        let ghost before = out@;
                        out.push(x);
                        assert(items_view(out@) =~= items_view(before).push(x@));
                    }
                    i = i + 1;
                }
                assert(xs.take(items@.len() as int) =~= xs);
                Ok(JsonValue::Array(out))
            },
            _ => Err(Self::not_array(value)),
        }
    }
}

/// An aggregation failure: a value that is not an array (its kind), or a
/// JSONPath error's text.
pub enum AggregationFailure {
    NotArray(Seq<char>),
    JsonPath(Seq<char>),
}

/// Whether an error is the given failure.
pub open spec fn failure_is(e: ExecutionError, f: AggregationFailure) -> bool {
    match f {
        AggregationFailure::NotArray(k) => e matches ExecutionError::TypeError { expected, actual } && expected@
            == "array"@ && actual@ == k,
        AggregationFailure::JsonPath(m) => e matches ExecutionError::JsonPathError(x) && x@ == m,
    }
}

/// What one aggregation operation other than a sort gives for the current value
/// (`values` being the gathered results, which a merge combines).
pub open spec fn op_result(values: Seq<JsonView>, op: AggregationOp, cur: JsonView) -> Result<
    JsonView,
    AggregationFailure,
> {
    match op {
        AggregationOp::Concat(_) => Ok(cur),
        AggregationOp::Merge(_) => Ok(JsonView::Object(spec_merge(values))),
        AggregationOp::Wrap(w) => Ok(JsonView::Object(seq![(w.field@, cur)])),
        _ => match cur {
            JsonView::Array(items) => match op {
                AggregationOp::Flatten(_) => Ok(JsonView::Array(spec_flatten(items))),
                AggregationOp::Limit(l) => Ok(
                    JsonView::Array(if l.count <= items.len() { items.take(l.count as int) } else { items }),
                ),
                AggregationOp::Dedupe(d) => match jsonpath_parse_error(d.field@) {
                    Some(m) => Err(AggregationFailure::JsonPath(d.field@ + ": "@ + m)),
                    None => Ok(JsonView::Array(spec_dedupe(items, first_nodes(d.field@, items)))),
                },
                AggregationOp::Extract(e) => match jsonpath_parse_error(e.path@) {
                    Some(m) => Err(AggregationFailure::JsonPath(e.path@ + ": "@ + m)),
                    None => Ok(JsonView::Array(query_values(e.path@, items))),
                },
                _ => Ok(cur),
            },
            _ => Err(AggregationFailure::NotArray(spec_kind_name(cur))),
        },
    }
}

/// The first node a path selects in each item.
pub open spec fn first_nodes(path: Seq<char>, items: Seq<JsonView>) -> Seq<Option<JsonView>> {
    items.map_values(|x: JsonView| first_node(path, x))
}

/// The value a path selects in each item (see `spec_query_value`).
pub open spec fn query_values(path: Seq<char>, items: Seq<JsonView>) -> Seq<JsonView> {
    items.map_values(|x: JsonView| spec_query_value(jsonpath_nodes(path, x)))
}

/// Where running the aggregation operations from the `start`-th on, on the
/// current value, stops: at the end with the result, at the first failure, or at
/// the next sort, which the caller performs.
pub enum AggregationStop {
    Done(JsonView),
    Failed(AggregationFailure),
    Sort(JsonView, int),
}

/// See `AggregationStop`.
pub open spec fn run_ops(values: Seq<JsonView>, ops: Seq<AggregationOp>, start: int, cur: JsonView) -> AggregationStop
    decreases ops.len() - start,
{
    if start < 0 || start >= ops.len() {
        AggregationStop::Done(cur)
    } else if ops[start] is Sort {
        AggregationStop::Sort(cur, start)
    } else {
        match op_result(values, ops[start], cur) {
            Err(f) => AggregationStop::Failed(f),
            Ok(v) => run_ops(values, ops, start + 1, v),
        }
    }
}

/// What the caller is asked for next while aggregating.
#[derive(Debug)]
pub enum AggregationStep {
    /// All operations ran, with this outcome.
    Done(Result<JsonValue, ExecutionError>),
    /// The operation at `at` is a sort of `value`; the run goes on after it.
    Sort { value: JsonValue, at: usize },
}

/// Whether a step is the given stop.
pub open spec fn step_is(r: AggregationStep, stop: AggregationStop) -> bool {
    match stop {
        AggregationStop::Done(v) => r matches AggregationStep::Done(Ok(x)) && x@ == v,
        AggregationStop::Failed(f) => r matches AggregationStep::Done(Err(e)) && failure_is(e, f),
        AggregationStop::Sort(v, k) => r matches AggregationStep::Sort { value, at } && value@ == v && at == k,
    }
}

impl ScatterGatherExecutor {
    /// Runs the aggregation operations from the `start`-th on, on `current`, up to
    /// the end, the first failure, or the next sort (see `run_ops`).
    pub fn aggregate_from(
        values: &Vec<JsonValue>,
        ops: &Vec<AggregationOp>,
        start: usize,
        current: JsonValue,
    ) -> (r: AggregationStep)
        ensures
            step_is(r, run_ops(items_view(values@), ops@, start as int, current@)),
    {
        let ghost vs = items_view(values@);
        let ghost target = run_ops(vs, ops@, start as int, current@);
        if start >= ops.len() {
            return AggregationStep::Done(Ok(current));
        }
        let mut cur = current;
        let mut i: usize = start;
        while i < ops.len()
            invariant
                start <= i <= ops@.len(),
                vs == items_view(values@),
                target == run_ops(vs, ops@, start as int, current@),
                run_ops(vs, ops@, i as int, cur@) == target,
            decreases ops@.len() - i,
        {
            let next = match &ops[i] {
                AggregationOp::Sort(_) => {
                    return AggregationStep::Sort { value: cur, at: i };
                },
                AggregationOp::Flatten(_) => Self::flatten(&cur),
                AggregationOp::Dedupe(d) => {
                    let r = Self::dedupe(&cur, d.field.as_str());
                    proof {
                        if cur@ is Array {
                            assert(first_nodes(d.field@, cur@->Array_0) =~= cur@->Array_0.map_values(
                                |x: JsonView| first_node(d.field@, x),
                            ));
                        }
                    }
                    r
                },
                AggregationOp::Limit(l) => Self::limit(&cur, l.count as usize),
                AggregationOp::Concat(_) => Ok(cur.duplicate()),
                AggregationOp::Merge(_) => Ok(Self::merge(values)),
                AggregationOp::Wrap(w) => Ok(Self::wrap(&cur, &w.field)),
                AggregationOp::Extract(e) => {
                    let r = Self::extract(&cur, e.path.as_str());
                    proof {
                        if cur@ is Array {
                            assert(query_values(e.path@, cur@->Array_0) =~= cur@->Array_0.map_values(
                                |x: JsonView| spec_query_value(jsonpath_nodes(e.path@, x)),
                            ));
                        }
                    }
                    r
                },
            };
            match next {
                Ok(v) => {
                    cur = v;
                },
                Err(e) => {
                    return AggregationStep::Done(Err(e));
                },
            }
            i = i + 1;
        }
        AggregationStep::Done(Ok(cur))
    }

    /// The gathered results as the array that aggregation starts from.
    pub fn gathered(values: &Vec<JsonValue>) -> (r: JsonValue)
        ensures
            r@ == JsonView::Array(items_view(values@)),
    {
        let mut out: Vec<JsonValue> = Vec::new();
        let mut i: usize = 0;
        while i < values.len()
            invariant
                i <= values@.len(),
                items_view(out@) == items_view(values@).take(i as int),
            decreases values@.len() - i,
        {
            let ghost before = out@;
            out.push(values[i].duplicate());
            assert(items_view(out@) =~= items_view(before).push(values@[i as int]@));
            assert(items_view(values@).take(i + 1) =~= items_view(values@).take(i as int).push(values@[i as int]@));
            i = i + 1;
        }
        assert(items_view(values@).take(values@.len() as int) =~= items_view(values@));
        JsonValue::Array(out)
    }
}

} // verus!

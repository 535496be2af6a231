//! The pipeline pattern: steps run in order, each on the output of the step before
//! it unless a data binding says where its input comes from.
//!
//! The caller runs the steps; the library keeps the pipeline's state, resolves
//! each step's input binding and decides what the pipeline returns.
use vstd::prelude::*;
use crate::json::{JsonValue, JsonView, items_view, members_view, find_key, spec_insert, object_insert, position_of_key, group_json_view};
use crate::scatter_gather::ExecutionError;
use crate::jsonpath::{jsonpath_query, jsonpath_parse_error, jsonpath_nodes};
use crate::text::{concat_str, str_eq};

verus! {

broadcast use group_json_view;

/// Input binding: a JSONPath into the composition input.
#[derive(Debug, Clone, PartialEq, Eq)]
pub struct InputBinding {
    /// JSONPath into composition input
    pub path: String,
}

/// Step binding: a JSONPath into the output of an earlier step.
#[derive(Debug, Clone, PartialEq, Eq)]
pub struct StepBinding {
    /// ID of the step to reference
    pub step_id: String,
    /// JSONPath into step output
    pub path: String,
}

/// Where a step's input comes from.
#[derive(Debug, PartialEq)]
pub enum DataBinding {
    /// From composition input
    Input(InputBinding),
    /// From a previous step's output
    Step(StepBinding),
    /// Constant value
    Constant(JsonValue),
    /// An object whose fields come from bindings of their own.
    Construct(ConstructBinding),
}

/// Construct binding: an object built field by field from other bindings.
#[derive(Debug, PartialEq)]
pub struct ConstructBinding {
    /// (field name, binding that produces the field value) pairs.
    pub fields: Vec<(String, DataBinding)>,
}

impl Default for DataBinding {
    /// The whole composition input.
    fn default() -> (r: DataBinding)
        ensures
            r matches DataBinding::Input(b) && b.path@ == "$"@,
    {
        DataBinding::Input(InputBinding { path: "$".to_owned() })
    }
}

/// The value a JSONPath query gives from the nodes it selected: `null` for none,
/// the node itself for one, an array of them for more.
pub open spec fn spec_query_value(nodes: Seq<JsonView>) -> JsonView {
    if nodes.len() == 0 {
        JsonView::Null
    } else if nodes.len() == 1 {
        nodes[0]
    } else {
        JsonView::Array(nodes)
    }
}

/// The object built from the values of a construct binding's fields, a later field
/// of the same name replacing an earlier one; the first failure is the result.
pub open spec fn spec_construct(fields: Seq<(String, Result<JsonValue, ExecutionError>)>) -> Result<
    Seq<(Seq<char>, JsonView)>,
    ExecutionError,
>
    decreases fields.len(),
{
    if fields.len() == 0 {
        Ok(Seq::empty())
    } else {
        match spec_construct(fields.drop_last()) {
            Err(e) => Err(e),
            Ok(acc) => match fields.last().1 {
                Ok(v) => Ok(spec_insert(acc, fields.last().0@, v@)),
                Err(e) => Err(e),
            },
        }
    }
}


/// What resolving a binding gives: a value, or the text of a `JsonPathError` or of
/// an `InvalidInput` error.
pub enum BindingView {
    Value(JsonView),
    JsonPathError(Seq<char>),
    InvalidInput(Seq<char>),
}

/// Whether a result is the one a `BindingView` describes.
pub open spec fn binding_result(r: Result<JsonValue, ExecutionError>, v: BindingView) -> bool {
    match v {
        BindingView::Value(x) => r matches Ok(y) && y@ == x,
        BindingView::JsonPathError(m) => r matches Err(ExecutionError::JsonPathError(e)) && e@ == m,
        BindingView::InvalidInput(m) => r matches Err(ExecutionError::InvalidInput(e)) && e@ == m,
    }
}

/// A JSONPath applied to a value: the whole value for `$`; otherwise the nodes the
/// path selects, shaped by `spec_query_value`; a text that is not a JSONPath gives
/// a `JsonPathError` naming the path and the parse error.
pub open spec fn spec_apply_jsonpath(path: Seq<char>, value: JsonView) -> BindingView {
    if path == "$"@ {
        BindingView::Value(value)
    } else {
        match jsonpath_parse_error(path) {
            Some(m) => BindingView::JsonPathError(path + ": "@ + m),
            None => BindingView::Value(spec_query_value(jsonpath_nodes(path, value))),
        }
    }
}

/// What a binding resolves to, given the composition input and the outputs of
/// the earlier steps by id: a path into the input or into a step's output (an
/// unknown step is an `InvalidInput` error), a constant, or an object built from
/// the fields' bindings in order, the first failure deciding.
pub open spec fn spec_resolve(b: DataBinding, input: JsonView, steps: Seq<(Seq<char>, JsonView)>) -> BindingView
    decreases b,
{
    match b {
        DataBinding::Input(ib) => spec_apply_jsonpath(ib.path@, input),
        DataBinding::Step(sb) => match find_key(steps, sb.step_id@) {
            Some(i) => spec_apply_jsonpath(sb.path@, steps[i].1),
            None => BindingView::InvalidInput("step "@ + sb.step_id@ + " not found"@),
        },
        DataBinding::Constant(v) => BindingView::Value(v@),
        DataBinding::Construct(cb) => match spec_resolve_fields(cb.fields@, input, steps) {
            Ok(ms) => BindingView::Value(JsonView::Object(ms)),
            Err(e) => e,
        },
    }
}

/// The members built from construct fields, in order, a later field of the same
/// name replacing an earlier one; the first failure instead.
pub open spec fn spec_resolve_fields(
    fields: Seq<(String, DataBinding)>,
    input: JsonView,
    steps: Seq<(Seq<char>, JsonView)>,
) -> Result<Seq<(Seq<char>, JsonView)>, BindingView>
    decreases fields,
{
    if fields.len() == 0 {
        Ok(Seq::empty())
    } else {
        match spec_resolve_fields(fields.drop_last(), input, steps) {
            Err(e) => Err(e),
            Ok(acc) => match spec_resolve(fields.last().1, input, steps) {
                BindingView::Value(v) => Ok(spec_insert(acc, fields.last().0@, v)),
                e => Err(e),
            },
        }
    }
}

/// A failure stays the answer when more fields follow.
proof fn lemma_resolve_fields_err_stays(
    fields: Seq<(String, DataBinding)>,
    input: JsonView,
    steps: Seq<(Seq<char>, JsonView)>,
    k: int,
)
    requires
        0 < k <= fields.len(),
        spec_resolve_fields(fields.take(k), input, steps) is Err,
    ensures
        spec_resolve_fields(fields, input, steps) == spec_resolve_fields(fields.take(k), input, steps),
    decreases fields.len() - k,
{
    if k < fields.len() {
        assert(fields.take(k + 1).drop_last() =~= fields.take(k));
        lemma_resolve_fields_err_stays(fields, input, steps, k + 1);
    } else {
        assert(fields.take(k) =~= fields);
    }
}

/// State of a running pipeline: the next step, the output of the last step (the
/// composition input before the first), and the outputs of the steps so far by id.
pub struct PipelineRun {
    /// Index of the next step.
    pub next: usize,
    /// The composition input.
    pub input: JsonValue,
    /// Output of the last step run, or the input before any step.
    pub current: JsonValue,
    /// Outputs of the steps run so far, by step id.
    pub step_results: Vec<(String, JsonValue)>,
}

/// Executor of pipeline patterns.
pub struct PipelineExecutor;

impl PipelineExecutor {
    /// A pipeline about to run its first step on `input`.
    pub fn start(input: JsonValue) -> (run: PipelineRun)
        ensures
            run.next == 0,
            run.input@ == input@,
            run.current@ == input@,
            run.step_results@.len() == 0,
    {
        let current = input.duplicate();
        PipelineRun { next: 0, input, current, step_results: Vec::new() }
    }

    /// The input of a step that has no binding: the output of the step before it,
    /// or the composition input for the first step.
    pub fn default_input(run: &PipelineRun) -> (r: JsonValue)
        ensures
            r@ == run.current@,
    {
        run.current.duplicate()
    }

    /// Whether a JSONPath is the root path `$`, which selects the whole value
    /// without evaluating the expression.
    pub fn is_root_path(path: &str) -> (r: bool)
        ensures
            r == (path@ == "$"@),
    {
        str_eq(path, "$")
    }

    /// The output of an earlier step that a step binding refers to; an id with no
    /// output is an `InvalidInput` error.
    pub fn step_output<'a>(run: &'a PipelineRun, step_id: &str) -> (r: Result<&'a JsonValue, ExecutionError>)
        ensures
            match find_key(members_view(run.step_results@), step_id@) {
                Some(i) => r matches Ok(v) && v@ == members_view(run.step_results@)[i].1,
                None => r matches Err(ExecutionError::InvalidInput(m)) && m@ == "step "@ + step_id@ + " not found"@,
            },
    {
        match position_of_key(&run.step_results, step_id) {
            Some(i) => {
                assert(members_view(run.step_results@)[i as int].1 == run.step_results@[i as int].1@);
                Ok(&run.step_results[i].1)
            },
            None => {
                let m = concat_str("step ", step_id);
                Err(ExecutionError::InvalidInput(concat_str(m.as_str(), " not found")))
            },
        }
    }

    /// The value of a JSONPath binding from the nodes its query selected.
    pub fn query_value(nodes: Vec<JsonValue>) -> (r: JsonValue)
        ensures
            r@ == spec_query_value(items_view(nodes@)),
    {
        if nodes.len() == 0 {
            JsonValue::Null
        } else if nodes.len() == 1 {
            nodes[0].duplicate()
        } else {
            JsonValue::Array(nodes)
        }
    }

    /// The object a construct binding builds from the values of its fields, in order.
    pub fn construct(fields: Vec<(String, Result<JsonValue, ExecutionError>)>) -> (r: Result<JsonValue, ExecutionError>)
        ensures
            match spec_construct(fields@) {
                Ok(ms) => r matches Ok(v) && v@ == JsonView::Object(ms),
                Err(e) => r == Err::<JsonValue, ExecutionError>(e),
            },
    {
        let mut out: Vec<(String, JsonValue)> = Vec::new();
        let mut i: usize = 0;
        assert(fields@.take(0) =~= Seq::<(String, Result<JsonValue, ExecutionError>)>::empty());
        assert(members_view(out@) =~= Seq::<(Seq<char>, JsonView)>::empty());
        while i < fields.len()
            invariant
                i <= fields@.len(),
                spec_construct(fields@.take(i as int)) == Ok::<Seq<(Seq<char>, JsonView)>, ExecutionError>(
                    members_view(out@),
                ),
            decreases fields@.len() - i,
        {
            assert(fields@.take(i + 1).drop_last() =~= fields@.take(i as int));
            assert(fields@.take(i + 1).last() == fields@[i as int]);
            match &fields[i].1 {
                Ok(v) => {
                    object_insert(&mut out, fields[i].0.clone(), v.duplicate());
                },
                Err(e) => {
                    proof {
                        lemma_construct_err_stays(fields@, i as int + 1);
                    }
                    return Err(e.duplicate());
                },
            }
            i = i + 1;
        }
        assert(fields@.take(fields@.len() as int) =~= fields@);
        Ok(JsonValue::Object(out))
    }

    /// A JSONPath applied to a value (see `spec_apply_jsonpath`).
    pub fn apply_jsonpath(path: &str, value: &JsonValue) -> (r: Result<JsonValue, ExecutionError>)
        ensures
            binding_result(r, spec_apply_jsonpath(path@, value@)),
    {
        if Self::is_root_path(path) {
            return Ok(value.duplicate());
        }
        match jsonpath_query(path, value) {
            Ok(nodes) => Ok(Self::query_value(nodes)),
            Err(e) => {
                let m = concat_str(path, ": ");
                Err(ExecutionError::JsonPathError(concat_str(m.as_str(), e.as_str())))
            },
        }
    }

    /// The input a binding gives a step of the running pipeline.
    pub fn resolve_binding(binding: &DataBinding, run: &PipelineRun) -> (r: Result<JsonValue, ExecutionError>)
        ensures
            binding_result(r, spec_resolve(*binding, run.input@, members_view(run.step_results@))),
        decreases binding,
    {
        match binding {
            DataBinding::Input(b) => Self::apply_jsonpath(b.path.as_str(), &run.input),
            DataBinding::Step(b) => match Self::step_output(run, b.step_id.as_str()) {
                Ok(output) => Self::apply_jsonpath(b.path.as_str(), output),
                Err(e) => Err(e),
            },
            DataBinding::Constant(v) => Ok(v.duplicate()),
            DataBinding::Construct(c) => {
                let ghost input = run.input@;
                let ghost steps = members_view(run.step_results@);
                let fields = &c.fields;
                let mut out: Vec<(String, JsonValue)> = Vec::new();
                let mut i: usize = 0;
                assert(fields@.take(0) =~= Seq::<(String, DataBinding)>::empty());
                assert(members_view(out@) =~= Seq::<(Seq<char>, JsonView)>::empty());
                while i < fields.len()
                    invariant
                        i <= fields@.len(),
                        *binding == DataBinding::Construct(*c),
                        *fields == c.fields,
                        input == run.input@,
                        steps == members_view(run.step_results@),
                        spec_resolve_fields(fields@.take(i as int), input, steps)
                            == Ok::<Seq<(Seq<char>, JsonView)>, BindingView>(members_view(out@)),
                    decreases fields@.len() - i,
                {
                    assert(fields@.take(i + 1).drop_last() =~= fields@.take(i as int));
                    assert(fields@.take(i + 1).last() == fields@[i as int]);
                    assert(decreases_to!(*binding => c.fields));
                    assert(decreases_to!(c.fields => c.fields@));
                    assert(decreases_to!(c.fields@ => c.fields@[i as int]));
                    assert(decreases_to!(c.fields@[i as int] => c.fields@[i as int].1));
                    let r = Self::resolve_binding(&fields[i].1, run);
                    match r {
                        Ok(v) => {
                            object_insert(&mut out, fields[i].0.clone(), v);
                        },
                        Err(e) => {
                            proof {
                                let ghost sv = spec_resolve(fields@[i as int].1, input, steps);
                                assert(!(sv is Value));
                                assert(spec_resolve_fields(fields@.take(i + 1), input, steps) == Err::<Seq<(Seq<char>, JsonView)>, BindingView>(sv));
                                lemma_resolve_fields_err_stays(fields@, input, steps, i as int + 1);
                                assert(spec_resolve(*binding, input, steps) == sv);
                            }
                            return Err(e);
                        },
                    }
                    i = i + 1;
                }
                assert(fields@.take(fields@.len() as int) =~= fields@);
                Ok(JsonValue::Object(out))
            },
        }
    }

    /// Records what the next step, `step_id`, gave: a failure ends the pipeline
    /// with that failure; an output becomes the current value and is stored under
    /// the step's id, replacing an earlier output of that id.
    pub fn complete_step(run: PipelineRun, step_id: &str, result: Result<JsonValue, ExecutionError>) -> (r: Result<
        PipelineRun,
        ExecutionError,
    >)
        requires
            run.next < usize::MAX,
        ensures
            match result {
                Err(e) => r == Err::<PipelineRun, ExecutionError>(e),
                Ok(v) => r matches Ok(next) && next.next == run.next + 1 && next.current@ == v@
                    && next.input@ == run.input@ && members_view(next.step_results@) == spec_insert(
                    members_view(run.step_results@),
                    step_id@,
                    v@,
                ),
            },
    {
        match result {
            Err(e) => Err(e),
            Ok(v) => {
                let mut step_results = run.step_results;
                object_insert(&mut step_results, step_id.to_owned(), v.duplicate());
                Ok(PipelineRun { next: run.next + 1, input: run.input, current: v, step_results })
            },
        }
    }

    /// The pipeline's output once every step has run: the output of the last step,
    /// or the input when there are no steps.
    pub fn finish(run: PipelineRun) -> (r: JsonValue)
        ensures
            r@ == run.current@,
    {
        run.current
    }
}

/// Once construction has failed, it stays failed with the same error.
proof fn lemma_construct_err_stays(fields: Seq<(String, Result<JsonValue, ExecutionError>)>, k: int)
    requires
        0 <= k <= fields.len(),
        spec_construct(fields.take(k)) is Err,
    ensures
        spec_construct(fields) == spec_construct(fields.take(k)),
    decreases fields.len() - k,
{
    if k < fields.len() {
        assert(fields.take(k + 1).drop_last() =~= fields.take(k));
        lemma_construct_err_stays(fields, k + 1);
    } else {
        assert(fields.take(k) =~= fields);
    }
}

} // verus!

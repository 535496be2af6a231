//! The saga pattern: a sequence of tool calls with compensation on failure.
//!
//! Steps run in order; when one fails, the compensating actions of the steps that
//! completed run in reverse order. The library decides what to call next; the
//! caller performs each call and reports its outcome.
use vstd::prelude::*;
use crate::duration::Duration;
use crate::json::{
    JsonValue, JsonView, find_key, spec_get, spec_insert, members_view, group_json_view, position_of_key,
    object_insert, lemma_find_key,
};
use crate::text::{dot_segments, split_dots, strings_view, concat_str, str_eq, lemma_dot_segments_nonempty};

verus! {

broadcast use group_json_view;

/// A tool call specification.
#[derive(Debug)]
pub struct ToolCall {
    /// Tool name to invoke
    pub name: String,
    /// Arguments (can include path bindings)
    pub arguments: JsonValue,
}

/// Input binding for a saga step: a path reference, an object of nested
/// bindings, or a literal value.
#[derive(Debug)]
pub enum InputBinding {
    /// Direct path reference (e.g., `$.input.flight`)
    Path { path: String },
    /// Object with nested bindings, as (field, binding) pairs
    Object(Vec<(String, InputBinding)>),
    /// Literal value
    Literal(JsonValue),
}

/// Mathematical view of an input binding.
pub enum BindingView {
    Path(Seq<char>),
    Object(Seq<(Seq<char>, BindingView)>),
    Literal(JsonView),
}

/// View of a binding.
pub open spec fn binding_view(b: InputBinding) -> BindingView
    decreases b,
{
    match b {
        InputBinding::Path { path } => BindingView::Path(path@),
        InputBinding::Object(fields) => BindingView::Object(
            Seq::new(
                fields.len() as nat,
                |i: int|
                    if 0 <= i < fields.len() {
                        (fields[i].0@, binding_view(fields[i].1))
                    } else {
                        (Seq::empty(), BindingView::Path(Seq::empty()))
                    },
            ),
        ),
        InputBinding::Literal(v) => BindingView::Literal(v@),
    }
}

impl View for InputBinding {
    type V = BindingView;

    open spec fn view(&self) -> BindingView {
        binding_view(*self)
    }
}

/// View of the fields of an object binding.
pub open spec fn fields_view(fields: Seq<(String, InputBinding)>) -> Seq<(Seq<char>, BindingView)> {
    fields.map_values(|f: (String, InputBinding)| (f.0@, f.1@))
}

proof fn lemma_object_binding_view(fields: Vec<(String, InputBinding)>)
    ensures
        binding_view(InputBinding::Object(fields)) == BindingView::Object(fields_view(fields@)),
{
    let s = match binding_view(InputBinding::Object(fields)) {
        BindingView::Object(s) => s,
        _ => Seq::empty(),
    };
    assert(s =~= fields_view(fields@));
}

/// A path binding that references a value in the execution context, such as
/// `$.input.flight` or `$.steps.flight.confirmationNumber`.
#[derive(Debug, Clone, PartialEq, Eq)]
pub struct PathBinding {
    /// JSONPath-like path to extract value
    pub path: String,
}

/// Output binding for constructing the saga result: output fields and the paths
/// they are read from.
#[derive(Debug, Clone, PartialEq, Eq)]
pub struct OutputBinding {
    pub fields: Vec<(String, PathBinding)>,
}

/// A single step in a saga.
#[derive(Debug)]
pub struct SagaStep {
    /// Unique identifier for this step (used in output binding)
    pub id: String,
    /// Human-readable name for logging
    pub name: String,
    /// The action to execute
    pub action: ToolCall,
    /// Optional compensation action to run on failure
    pub compensate: Option<ToolCall>,
    /// Input binding for this step
    pub input: Option<InputBinding>,
}

/// A saga: a sequence of steps with compensation on failure.
#[derive(Debug)]
pub struct Saga {
    /// Ordered list of steps to execute
    pub steps: Vec<SagaStep>,
    /// Optional overall timeout for the saga
    pub timeout: Option<Duration>,
    /// Optional output binding to construct the result
    pub output: Option<OutputBinding>,
}

/// The status of a saga execution.
#[derive(Debug, Clone, PartialEq, Eq)]
pub enum SagaStatus {
    /// All steps completed successfully
    Completed,
    /// A step failed, compensation may have been attempted
    Failed { step: String, error: String },
    /// Compensation also failed
    CompensationFailed { original_error: String, compensation_errors: Vec<String> },
    /// The saga timed out
    TimedOut,
}

/// Error type for saga execution.
#[derive(Debug, Clone, PartialEq, Eq)]
pub enum SagaError {
    StepFailed { step: String, message: String },
    InvalidPath(String),
    Timeout(Duration),
    ToolError(String),
}

/// Result of executing a saga.
#[derive(Debug)]
pub struct SagaResult {
    /// The constructed output based on output binding
    pub output: JsonValue,
    /// Results from each step, as (step id, result) pairs
    pub step_results: Vec<(String, JsonValue)>,
    /// The final status of the saga
    pub status: SagaStatus,
}

// ---------------------------------------------------------------------------
// Path resolution
// ---------------------------------------------------------------------------

/// Follows object keys from `v`; the error names the first key that is missing.
pub open spec fn navigate(v: JsonView, keys: Seq<Seq<char>>, path: Seq<char>) -> Result<JsonView, Seq<char>>
    decreases keys.len(),
{
    if keys.len() == 0 {
        Ok(v)
    } else {
        match spec_get(v, keys[0]) {
            Some(c) => navigate(c, keys.drop_first(), path),
            None => Err("Key '"@ + keys[0] + "' not found in path: "@ + path),
        }
    }
}

/// The value a path names: `$.input.<keys>` inside the saga input, or
/// `$.steps.<id>.<keys>` inside the result of step `<id>`. The error is the
/// message of an invalid path.
pub open spec fn spec_resolve_path(
    path: Seq<char>,
    input: JsonView,
    results: Seq<(Seq<char>, JsonView)>,
) -> Result<JsonView, Seq<char>> {
    let parts = dot_segments(path);
    if parts[0] != "$"@ {
        Err("Path must start with $: "@ + path)
    } else if parts.len() < 2 {
        Err("Path too short: "@ + path)
    } else if parts[1] == "input"@ {
        navigate(input, parts.skip(2), path)
    } else if parts[1] == "steps"@ {
        if parts.len() < 3 {
            Err("$.steps requires step id: "@ + path)
        } else {
            match find_key(results, parts[2]) {
                Some(i) => navigate(results[i].1, parts.skip(3), path),
                None => Err("Step "@ + parts[2] + " not found"@),
            }
        }
    } else {
        Err("Unknown root '"@ + parts[1] + "' in path: "@ + path)
    }
}

/// A path error as the library reports it.
pub open spec fn path_result(r: Result<JsonView, Seq<char>>, out: Result<JsonValue, SagaError>) -> bool {
    match r {
        Ok(v) => out matches Ok(x) && x@ == v,
        Err(m) => out matches Err(SagaError::InvalidPath(e)) && e@ == m,
    }
}

/// Follows `keys[from..]` from `v`.
fn navigate_keys(v: &JsonValue, keys: &Vec<String>, from: usize, path: &str) -> (r: Result<JsonValue, SagaError>)
    requires
        from <= keys@.len(),
    ensures
        path_result(navigate(v@, strings_view(keys@).skip(from as int), path@), r),
    decreases keys@.len() - from,
{
    let ghost ks = strings_view(keys@).skip(from as int);
    if from == keys.len() {
        return Ok(v.duplicate());
    }
    assert(ks[0] == keys@[from as int]@);
    assert(ks.drop_first() =~= strings_view(keys@).skip(from + 1));
    match v.get(keys[from].as_str()) {
        Some(c) => navigate_keys(c, keys, from + 1, path),
        None => {
            let m = concat_str("Key '", keys[from].as_str());
            let m = concat_str(m.as_str(), "' not found in path: ");
            let m = concat_str(m.as_str(), path);
            Err(SagaError::InvalidPath(m))
        },
    }
}

/// Resolves a path such as `$.input.flight` or `$.steps.flight.confirmationNumber`
/// against the saga input and the results of the steps so far.
pub fn resolve_path(path: &str, input: &JsonValue, step_results: &Vec<(String, JsonValue)>) -> (r: Result<JsonValue, SagaError>)
    ensures
        path_result(spec_resolve_path(path@, input@, members_view(step_results@)), r),
{
    let parts = split_dots(path);
    let ghost ps = strings_view(parts@);
    proof {
        lemma_dot_segments_nonempty(path@);
        assert(ps[0] == parts@[0]@);
    }
    if !str_eq(parts[0].as_str(), "$") {
        return Err(SagaError::InvalidPath(concat_str("Path must start with $: ", path)));
    }
    if parts.len() < 2 {
        return Err(SagaError::InvalidPath(concat_str("Path too short: ", path)));
    }
    assert(ps[1] == parts@[1]@);
    if str_eq(parts[1].as_str(), "input") {
        return navigate_keys(input, &parts, 2, path);
    }
    if str_eq(parts[1].as_str(), "steps") {
        if parts.len() < 3 {
            return Err(SagaError::InvalidPath(concat_str("$.steps requires step id: ", path)));
        }
        assert(ps[2] == parts@[2]@);
        return match position_of_key(step_results, parts[2].as_str()) {
            Some(i) => {
                assert(members_view(step_results@)[i as int].1 == step_results@[i as int].1@);
                navigate_keys(&step_results[i].1, &parts, 3, path)
            },
            None => {
                let m = concat_str("Step ", parts[2].as_str());
                Err(SagaError::InvalidPath(concat_str(m.as_str(), " not found")))
            },
        };
    }
    let m = concat_str("Unknown root '", parts[1].as_str());
    let m = concat_str(m.as_str(), "' in path: ");
    Err(SagaError::InvalidPath(concat_str(m.as_str(), path)))
}

// ---------------------------------------------------------------------------
// Input and output bindings
// ---------------------------------------------------------------------------

/// The value a binding gives: a path's value, the literal, or an object of the
/// values of its fields (a later field of the same name replacing an earlier
/// one). The first field that fails gives the error.
pub open spec fn spec_resolve_binding(
    b: BindingView,
    input: JsonView,
    results: Seq<(Seq<char>, JsonView)>,
) -> Result<JsonView, Seq<char>>
    decreases b,
{
    match b {
        BindingView::Path(p) => spec_resolve_path(p, input, results),
        BindingView::Literal(v) => Ok(v),
        BindingView::Object(fs) => match spec_resolve_fields(fs, input, results) {
            Ok(ms) => Ok(JsonView::Object(ms)),
            Err(e) => Err(e),
        },
    }
}

/// The members resolved from the fields of an object binding, in order.
pub open spec fn spec_resolve_fields(
    fs: Seq<(Seq<char>, BindingView)>,
    input: JsonView,
    results: Seq<(Seq<char>, JsonView)>,
) -> Result<Seq<(Seq<char>, JsonView)>, Seq<char>>
    decreases fs,
{
    if fs.len() == 0 {
        Ok(Seq::empty())
    } else {
        match spec_resolve_fields(fs.drop_last(), input, results) {
            Err(e) => Err(e),
            Ok(acc) => match spec_resolve_binding(fs.last().1, input, results) {
                Err(e) => Err(e),
                Ok(v) => Ok(spec_insert(acc, fs.last().0, v)),
            },
        }
    }
}

/// The input of a step: the saga input when the step has no binding.
pub open spec fn spec_resolve_input(
    b: Option<InputBinding>,
    input: JsonView,
    results: Seq<(Seq<char>, JsonView)>,
) -> Result<JsonView, Seq<char>> {
    match b {
        None => Ok(input),
        Some(b) => spec_resolve_binding(b@, input, results),
    }
}

/// The members of an output binding: each field's path resolved, in order.
pub open spec fn spec_resolve_outputs(
    fields: Seq<(String, PathBinding)>,
    input: JsonView,
    results: Seq<(Seq<char>, JsonView)>,
) -> Result<Seq<(Seq<char>, JsonView)>, Seq<char>>
    decreases fields.len(),
{
    if fields.len() == 0 {
        Ok(Seq::empty())
    } else {
        match spec_resolve_outputs(fields.drop_last(), input, results) {
            Err(e) => Err(e),
            Ok(acc) => match spec_resolve_path(fields.last().1.path@, input, results) {
                Err(e) => Err(e),
                Ok(v) => Ok(spec_insert(acc, fields.last().0@, v)),
            },
        }
    }
}

/// The saga's output: all step results as an object when there is no output
/// binding, else an object of the bound fields.
pub open spec fn spec_resolve_output(
    b: Option<OutputBinding>,
    input: JsonView,
    results: Seq<(Seq<char>, JsonView)>,
) -> Result<JsonView, Seq<char>> {
    match b {
        None => Ok(JsonView::Object(results)),
        Some(o) => match spec_resolve_outputs(o.fields@, input, results) {
            Ok(ms) => Ok(JsonView::Object(ms)),
            Err(e) => Err(e),
        },
    }
}

proof fn lemma_fields_error_stays(
    fs: Seq<(Seq<char>, BindingView)>,
    j: int,
    input: JsonView,
    results: Seq<(Seq<char>, JsonView)>,
)
    requires
        0 <= j <= fs.len(),
        spec_resolve_fields(fs.take(j), input, results) is Err,
    ensures
        spec_resolve_fields(fs, input, results) == spec_resolve_fields(fs.take(j), input, results),
    decreases fs.len() - j,
{
    if j < fs.len() {
        assert(fs.take(j + 1).drop_last() =~= fs.take(j));
        lemma_fields_error_stays(fs, j + 1, input, results);
    } else {
        assert(fs.take(j) =~= fs);
    }
}

proof fn lemma_outputs_error_stays(
    fs: Seq<(String, PathBinding)>,
    j: int,
    input: JsonView,
    results: Seq<(Seq<char>, JsonView)>,
)
    requires
        0 <= j <= fs.len(),
        spec_resolve_outputs(fs.take(j), input, results) is Err,
    ensures
        spec_resolve_outputs(fs, input, results) == spec_resolve_outputs(fs.take(j), input, results),
    decreases fs.len() - j,
{
    if j < fs.len() {
        assert(fs.take(j + 1).drop_last() =~= fs.take(j));
        lemma_outputs_error_stays(fs, j + 1, input, results);
    } else {
        assert(fs.take(j) =~= fs);
    }
}

/// A copy of the step results.
fn copy_results(results: &Vec<(String, JsonValue)>) -> (r: Vec<(String, JsonValue)>)
    ensures
        members_view(r@) == members_view(results@),
{
    let mut out: Vec<(String, JsonValue)> = Vec::new();
    let mut i: usize = 0;
    while i < results.len()
        invariant
            i <= results@.len(),
            members_view(out@) == members_view(results@).take(i as int),
        decreases results@.len() - i,
    {
        let k = results[i].0.clone();
        let v = results[i].1.duplicate();
        let ghost prev = out@;
        let ghost pair = (k, v);
        out.push((k, v));
        assert(members_view(out@) =~= members_view(prev).push((pair.0@, pair.1@)));
        assert(members_view(results@).take(i + 1) =~= members_view(results@).take(i as int).push(
            members_view(results@)[i as int],
        ));
        i = i + 1;
    }
    assert(members_view(results@).take(results@.len() as int) =~= members_view(results@));
    out
}

/// The value a binding gives.
fn resolve_binding(b: &InputBinding, input: &JsonValue, results: &Vec<(String, JsonValue)>) -> (r: Result<
    JsonValue,
    SagaError,
>)
    ensures
        path_result(spec_resolve_binding(b@, input@, members_view(results@)), r),
    decreases b,
{
    match b {
        InputBinding::Path { path } => resolve_path(path.as_str(), input, results),
        InputBinding::Literal(v) => Ok(v.duplicate()),
        InputBinding::Object(fields) => {
            proof {
                lemma_object_binding_view(*fields);
            }
            let ghost fs = fields_view(fields@);
            let ghost rv = members_view(results@);
            let mut acc: Vec<(String, JsonValue)> = Vec::new();
            let mut k: usize = 0;
            assert(fs.take(0) =~= Seq::<(Seq<char>, BindingView)>::empty());
            assert(members_view(acc@) =~= Seq::<(Seq<char>, JsonView)>::empty());
            while k < fields.len()
                invariant
                    k <= fields@.len(),
                    *b == InputBinding::Object(*fields),
                    b@ == BindingView::Object(fs),
                    fs == fields_view(fields@),
                    rv == members_view(results@),
                    spec_resolve_fields(fs.take(k as int), input@, rv) == Ok::<Seq<(Seq<char>, JsonView)>, Seq<char>>(
                        members_view(acc@),
                    ),
                decreases fields@.len() - k,
            {
                assert(decreases_to!(*b => (*b)->Object_0));
                assert(decreases_to!(*fields => fields[k as int]));
                assert(decreases_to!(fields[k as int] => fields[k as int].1));
                assert(fs.take(k + 1).drop_last() =~= fs.take(k as int));
                assert(fs.take(k + 1).last() == (fields@[k as int].0@, fields@[k as int].1@));
                match resolve_binding(&fields[k].1, input, results) {
                    Ok(v) => {
                        object_insert(&mut acc, fields[k].0.clone(), v);
                    },
                    Err(e) => {
                        proof {
                            lemma_fields_error_stays(fs, k + 1, input@, rv);
                        }
                        return Err(e);
                    },
                }
                k = k + 1;
            }
            assert(fs.take(fields@.len() as int) =~= fs);
            Ok(JsonValue::Object(acc))
        },
    }
}

/// Resolves the input of a step: its binding, or the saga input when it has none.
pub fn resolve_input(binding: &Option<InputBinding>, input: &JsonValue, step_results: &Vec<(String, JsonValue)>) -> (r:
    Result<JsonValue, SagaError>)
    ensures
        path_result(spec_resolve_input(*binding, input@, members_view(step_results@)), r),
{
    match binding {
        None => Ok(input.duplicate()),
        Some(b) => resolve_binding(b, input, step_results),
    }
}

/// Constructs the saga's output from its output binding.
pub fn resolve_output(binding: &Option<OutputBinding>, input: &JsonValue, step_results: &Vec<(String, JsonValue)>) -> (r:
    Result<JsonValue, SagaError>)
    ensures
        path_result(spec_resolve_output(*binding, input@, members_view(step_results@)), r),
{
    match binding {
        None => Ok(JsonValue::Object(copy_results(step_results))),
        Some(o) => {
            let ghost rv = members_view(step_results@);
            let mut acc: Vec<(String, JsonValue)> = Vec::new();
            let mut k: usize = 0;
            assert(o.fields@.take(0) =~= Seq::<(String, PathBinding)>::empty());
            assert(members_view(acc@) =~= Seq::<(Seq<char>, JsonView)>::empty());
            while k < o.fields.len()
                invariant
                    k <= o.fields@.len(),
                    *binding == Some(*o),
                    rv == members_view(step_results@),
                    spec_resolve_outputs(o.fields@.take(k as int), input@, rv) == Ok::<
                        Seq<(Seq<char>, JsonView)>,
                        Seq<char>,
                    >(members_view(acc@)),
                decreases o.fields@.len() - k,
            {
                assert(o.fields@.take(k + 1).drop_last() =~= o.fields@.take(k as int));
                assert(o.fields@.take(k + 1).last() == o.fields@[k as int]);
                match resolve_path(o.fields[k].1.path.as_str(), input, step_results) {
                    Ok(v) => {
                        object_insert(&mut acc, o.fields[k].0.clone(), v);
                    },
                    Err(e) => {
                        proof {
                            lemma_outputs_error_stays(o.fields@, k + 1, input@, rv);
                        }
                        return Err(e);
                    },
                }
                k = k + 1;
            }
            assert(o.fields@.take(o.fields@.len() as int) =~= o.fields@);
            Ok(JsonValue::Object(acc))
        },
    }
}

// ---------------------------------------------------------------------------
// Running a saga
// ---------------------------------------------------------------------------

/// Where a saga run stands.
#[derive(Debug)]
pub enum SagaPhase {
    /// Waiting for the outcome of the action of step `next`.
    Forward { next: usize },
    /// Step `failed` failed with `error`; waiting for the outcome of the
    /// compensation of step `at`, with the compensation errors so far.
    Compensating { failed: usize, error: String, at: usize, errors: Vec<String> },
    /// The saga is over.
    Done,
}

/// A saga in progress: the results of the steps so far and where it stands.
#[derive(Debug)]
pub struct SagaRun {
    pub step_results: Vec<(String, JsonValue)>,
    pub phase: SagaPhase,
}

/// What the caller is to do next.
#[derive(Debug)]
pub enum SagaAction {
    /// Run the action of step `step` on this input.
    RunStep { step: usize, input: JsonValue },
    /// Run the compensation of step `step` on this input.
    Compensate { step: usize, input: JsonValue },
    /// The saga is over, with this result.
    Finish(Result<SagaResult, SagaError>),
}

/// "Failed to resolve compensation input for <id>: invalid path binding: <m>"
pub open spec fn comp_resolve_message(id: Seq<char>, m: Seq<char>) -> Seq<char> {
    "Failed to resolve compensation input for "@ + id + ": invalid path binding: "@ + m
}

/// "Compensation failed for <id>: <error>"
pub open spec fn comp_failed_message(id: Seq<char>, e: Seq<char>) -> Seq<char> {
    "Compensation failed for "@ + id + ": "@ + e
}

/// The next compensation to run among steps `0..at`, latest first: the latest
/// step with a compensation whose input resolves, with that input; and the
/// errors so far, extended by those of the steps whose compensation input did
/// not resolve.
pub open spec fn next_compensation(
    steps: Seq<SagaStep>,
    input: JsonView,
    results: Seq<(Seq<char>, JsonView)>,
    at: int,
    errors: Seq<Seq<char>>,
) -> (Option<(int, JsonView)>, Seq<Seq<char>>)
    decreases at,
{
    if at <= 0 {
        (None, errors)
    } else {
        let k = at - 1;
        if steps[k].compensate is None {
            next_compensation(steps, input, results, k, errors)
        } else {
            match spec_resolve_input(steps[k].input, input, results) {
                Ok(v) => (Some((k, v)), errors),
                Err(m) => next_compensation(
                    steps,
                    input,
                    results,
                    k,
                    errors.push(comp_resolve_message(steps[k].id@, m)),
                ),
            }
        }
    }
}

/// The status of a saga whose step `failed_id` failed with `error`, after
/// compensation gave `errors`.
pub open spec fn failure_status(status: SagaStatus, failed_id: Seq<char>, error: Seq<char>, errors: Seq<Seq<char>>) -> bool {
    if errors.len() == 0 {
        status matches SagaStatus::Failed { step, error: e } && step@ == failed_id && e@ == error
    } else {
        status matches SagaStatus::CompensationFailed { original_error, compensation_errors } && original_error@ == error
            && strings_view(compensation_errors@) == errors
    }
}

/// A run that is waiting for an outcome and fits the saga.
pub open spec fn run_wf(saga: Saga, run: SagaRun) -> bool {
    match run.phase {
        SagaPhase::Forward { next } => next < saga.steps@.len(),
        SagaPhase::Compensating { failed, at, .. } => at < failed < saga.steps@.len() && saga.steps@[at as int].compensate
            is Some,
        SagaPhase::Done => false,
    }
}

/// What follows once steps `0..i` have completed with the given results: run
/// step `i`, or, after the last step, finish with the output.
pub open spec fn forward_answer(
    saga: Saga,
    input: JsonView,
    results: Seq<(Seq<char>, JsonView)>,
    i: int,
    run: SagaRun,
    action: SagaAction,
) -> bool {
    &&& members_view(run.step_results@) == results
    &&& if i == saga.steps@.len() {
        &&& run.phase is Done
        &&& match spec_resolve_output(saga.output, input, results) {
            Ok(o) => action matches SagaAction::Finish(Ok(res)) && res.output@ == o && members_view(res.step_results@)
                == results && res.status == SagaStatus::Completed,
            Err(m) => action matches SagaAction::Finish(Err(SagaError::InvalidPath(e))) && e@ == m,
        }
    } else {
        match spec_resolve_input(saga.steps@[i].input, input, results) {
            Ok(v) => {
                &&& run.phase == SagaPhase::Forward { next: i as usize }
                &&& action matches SagaAction::RunStep { step, input: x } && step == i && x@ == v
            },
            Err(m) => {
                &&& run.phase is Done
                &&& action matches SagaAction::Finish(Err(SagaError::InvalidPath(e))) && e@ == m
            },
        }
    }
}

/// What follows when compensation goes on among steps `0..at` after step
/// `failed` failed with `error`: run the next compensation, or finish with the
/// failure.
pub open spec fn compensation_answer(
    saga: Saga,
    input: JsonView,
    results: Seq<(Seq<char>, JsonView)>,
    failed: int,
    error: Seq<char>,
    at: int,
    errors: Seq<Seq<char>>,
    run: SagaRun,
    action: SagaAction,
) -> bool {
    let (next, errs) = next_compensation(saga.steps@, input, results, at, errors);
    &&& members_view(run.step_results@) == results
    &&& match next {
        Some((k, v)) => {
            &&& run.phase matches SagaPhase::Compensating { failed: f, error: e, at: a, errors: es } && f == failed
                && e@ == error && a == k && strings_view(es@) == errs
            &&& action matches SagaAction::Compensate { step, input: x } && step == k && x@ == v
        },
        None => {
            &&& run.phase is Done
            &&& action matches SagaAction::Finish(Ok(res)) && res.output@ == JsonView::Null && members_view(
                res.step_results@,
            ) == results && failure_status(res.status, saga.steps@[failed].id@, error, errs)
        },
    }
}

proof fn lemma_next_compensation_before(
    steps: Seq<SagaStep>,
    input: JsonView,
    results: Seq<(Seq<char>, JsonView)>,
    at: int,
    errors: Seq<Seq<char>>,
)
    requires
        at <= steps.len(),
    ensures
        next_compensation(steps, input, results, at, errors).0 matches Some((k, v)) ==> 0 <= k < at && steps[k].compensate
            is Some,
    decreases at,
{
    if at > 0 {
        let k = at - 1;
        lemma_next_compensation_before(steps, input, results, k, errors);
        match spec_resolve_input(steps[k].input, input, results) {
            Ok(v) => {},
            Err(m) => {
                lemma_next_compensation_before(steps, input, results, k, errors.push(comp_resolve_message(steps[k].id@, m)));
            },
        }
    }
}

/// Continues once steps `0..i` have completed.
fn forward_from(saga: &Saga, input: &JsonValue, step_results: Vec<(String, JsonValue)>, i: usize) -> (r: (SagaRun, SagaAction))
    requires
        i <= saga.steps@.len(),
    ensures
        forward_answer(*saga, input@, members_view(step_results@), i as int, r.0, r.1),
{
    if i == saga.steps.len() {
        let out = resolve_output(&saga.output, input, &step_results);
        let copy = copy_results(&step_results);
        let action = match out {
            Ok(o) => SagaAction::Finish(Ok(SagaResult { output: o, step_results: copy, status: SagaStatus::Completed })),
            Err(e) => SagaAction::Finish(Err(e)),
        };
        (SagaRun { step_results, phase: SagaPhase::Done }, action)
    } else {
        match resolve_input(&saga.steps[i].input, input, &step_results) {
            Ok(v) => (SagaRun { step_results, phase: SagaPhase::Forward { next: i } }, SagaAction::RunStep { step: i, input: v }),
            Err(e) => (SagaRun { step_results, phase: SagaPhase::Done }, SagaAction::Finish(Err(e))),
        }
    }
}

/// Continues compensation among steps `0..at`, latest first.
fn compensate_from(
    saga: &Saga,
    input: &JsonValue,
    step_results: Vec<(String, JsonValue)>,
    failed: usize,
    error: String,
    at: usize,
    errors: Vec<String>,
) -> (r: (SagaRun, SagaAction))
    requires
        at <= failed < saga.steps@.len(),
    ensures
        compensation_answer(
            *saga,
            input@,
            members_view(step_results@),
            failed as int,
            error@,
            at as int,
            strings_view(errors@),
            r.0,
            r.1,
        ),
{
    let ghost rv = members_view(step_results@);
    let ghost target = next_compensation(saga.steps@, input@, rv, at as int, strings_view(errors@));
    let mut errs = errors;
    let mut k = at;
    while k > 0
        invariant
            k <= at <= failed < saga.steps@.len(),
            rv == members_view(step_results@),
            target == next_compensation(saga.steps@, input@, rv, k as int, strings_view(errs@)),
            target == next_compensation(saga.steps@, input@, rv, at as int, strings_view(errors@)),
        decreases k,
    {
        let j = k - 1;
        match &saga.steps[j].compensate {
            None => {},
            Some(_) => {
                match resolve_input(&saga.steps[j].input, input, &step_results) {
                    Ok(v) => {
                        assert(saga.steps@[j as int].compensate is Some);
                        assert(spec_resolve_input(saga.steps@[j as int].input, input@, rv) == Ok::<JsonView, Seq<char>>(v@));
                        assert(target == (Some((j as int, v@)), strings_view(errs@)));
                        let r = (
                            SagaRun {
                                step_results,
                                phase: SagaPhase::Compensating { failed, error, at: j, errors: errs },
                            },
                            SagaAction::Compensate { step: j, input: v },
                        );
                        return r;
                    },
                    Err(e) => {
                        let m = match e {
                            SagaError::InvalidPath(m) => m,
                            _ => unreached(),
                        };
                        let text = concat_str("Failed to resolve compensation input for ", saga.steps[j].id.as_str());
                        let text = concat_str(text.as_str(), ": invalid path binding: ");
                        let text = concat_str(text.as_str(), m.as_str());
                        let ghost before = errs@;
                        errs.push(text);
                        assert(strings_view(errs@) =~= strings_view(before).push(text@));
                    },
                }
            },
        }
        k = j;
    }
    let copy = copy_results(&step_results);
    let status = if errs.len() == 0 {
        SagaStatus::Failed { step: saga.steps[failed].id.clone(), error }
    } else {
        SagaStatus::CompensationFailed { original_error: error, compensation_errors: errs }
    };
    (
        SagaRun { step_results, phase: SagaPhase::Done },
        SagaAction::Finish(Ok(SagaResult { output: JsonValue::Null, step_results: copy, status })),
    )
}

/// Starts a saga on the given input: the first step's action, or, for a saga
/// without steps, its output.
pub fn start_saga(saga: &Saga, input: &JsonValue) -> (r: (SagaRun, SagaAction))
    ensures
        forward_answer(*saga, input@, Seq::empty(), 0, r.0, r.1),
{
    let results: Vec<(String, JsonValue)> = Vec::new();
    assert(members_view(results@) =~= Seq::<(Seq<char>, JsonView)>::empty());
    forward_from(saga, input, results, 0)
}

/// Advances a saga with the outcome of the call it asked for: the result of a
/// step's action or compensation, or its error message.
///
/// After a step succeeds its result is recorded and the next step runs; after a
/// step fails, the compensations of the steps that completed run, latest first;
/// a failed compensation is recorded and compensation goes on.
pub fn advance_saga(saga: &Saga, input: &JsonValue, run: SagaRun, outcome: Result<JsonValue, String>) -> (r: (
    SagaRun,
    SagaAction,
))
    requires
        run_wf(*saga, run),
    ensures
        match (run.phase, outcome) {
            (SagaPhase::Forward { next }, Ok(v)) => forward_answer(
                *saga,
                input@,
                spec_insert(members_view(run.step_results@), saga.steps@[next as int].id@, v@),
                next + 1,
                r.0,
                r.1,
            ),
            (SagaPhase::Forward { next }, Err(e)) => compensation_answer(
                *saga,
                input@,
                members_view(run.step_results@),
                next as int,
                e@,
                next as int,
                Seq::empty(),
                r.0,
                r.1,
            ),
            (SagaPhase::Compensating { failed, error, at, errors }, Ok(_)) => compensation_answer(
                *saga,
                input@,
                members_view(run.step_results@),
                failed as int,
                error@,
                at as int,
                strings_view(errors@),
                r.0,
                r.1,
            ),
            (SagaPhase::Compensating { failed, error, at, errors }, Err(e)) => compensation_answer(
                *saga,
                input@,
                members_view(run.step_results@),
                failed as int,
                error@,
                at as int,
                strings_view(errors@).push(comp_failed_message(saga.steps@[at as int].id@, e@)),
                r.0,
                r.1,
            ),
            _ => false,
        },
        // Steps run in order, and compensations run for completed steps only, latest first.
        run.phase matches SagaPhase::Forward { next } ==> (r.1 matches SagaAction::RunStep { step, .. } ==> step == next + 1),
        r.1 matches SagaAction::Compensate { step, .. } ==> saga.steps@[step as int].compensate is Some && match run.phase {
            SagaPhase::Forward { next } => step < next,
            SagaPhase::Compensating { at, .. } => step < at,
            SagaPhase::Done => false,
        },
{
    let SagaRun { step_results, phase } = run;
    match phase {
        SagaPhase::Forward { next } => match outcome {
            Ok(v) => {
                assert(next + 1 <= saga.steps.len());
                let mut results = step_results;
                object_insert(&mut results, saga.steps[next].id.clone(), v);
                forward_from(saga, input, results, next + 1)
            },
            Err(e) => {
                let r = compensate_from(saga, input, step_results, next, e, next, Vec::new());
                proof {
                    assert(strings_view(Seq::<String>::empty()) =~= Seq::<Seq<char>>::empty());
                    lemma_next_compensation_before(saga.steps@, input@, members_view(step_results@), next as int, Seq::empty());
                }
                r
            },
        },
        SagaPhase::Compensating { failed, error, at, errors } => {
            let mut errors = errors;
            let ghost es = strings_view(errors@);
            match outcome {
                Ok(_) => {},
                Err(e) => {
                    let text = concat_str("Compensation failed for ", saga.steps[at].id.as_str());
                    let text = concat_str(text.as_str(), ": ");
                    let text = concat_str(text.as_str(), e.as_str());
                    errors.push(text);
                    assert(strings_view(errors@) =~= es.push(text@));
                },
            }
            let ghost es2 = strings_view(errors@);
            let r = compensate_from(saga, input, step_results, failed, error, at, errors);
            proof {
                lemma_next_compensation_before(saga.steps@, input@, members_view(step_results@), at as int, es2);
            }
            r
        },
        SagaPhase::Done => unreached(),
    }
}

} // verus!

//! The claim check pattern: a large payload is stored by a store tool, the inner
//! operation works on the reference (the claim ticket) the store gave back, and
//! the payload can be retrieved at the end.
//!
//! The caller makes the tool calls; `ClaimCheckRun` decides which call comes next
//! and what the pattern returns.
use vstd::prelude::*;
use crate::json::{JsonValue, JsonView, members_view, spec_get, spec_insert, object_insert, group_json_view};
use crate::text::{concat_str, dot_segments, lemma_dot_segments_nonempty, split_dots, str_eq, strings_view};

verus! {

broadcast use group_json_view;

/// Errors of a claim check.
#[derive(Debug, PartialEq, Eq)]
pub enum ExecutionError {
    StoreFailed(String),
    RetrieveFailed(String),
    InnerOperationFailed(String),
    TransformFailed(String),
    ToolNotFound(String),
    NotImplemented,
}

/// The message of a claim check error.
pub open spec fn spec_claim_message(e: ExecutionError) -> Seq<char> {
    match e {
        ExecutionError::StoreFailed(m) => "store tool execution failed: "@ + m@,
        ExecutionError::RetrieveFailed(m) => "retrieve tool execution failed: "@ + m@,
        ExecutionError::InnerOperationFailed(m) => "inner operation failed: "@ + m@,
        ExecutionError::TransformFailed(m) => "reference transform failed: "@ + m@,
        ExecutionError::ToolNotFound(m) => "tool not found: "@ + m@,
        ExecutionError::NotImplemented => "executor not implemented"@,
    }
}

impl ExecutionError {
    /// The error's message.
    pub fn message(&self) -> (r: String)
        ensures
            r@ == spec_claim_message(*self),
    {
        match self {
            ExecutionError::StoreFailed(m) => concat_str("store tool execution failed: ", m.as_str()),
            ExecutionError::RetrieveFailed(m) => concat_str("retrieve tool execution failed: ", m.as_str()),
            ExecutionError::InnerOperationFailed(m) => concat_str("inner operation failed: ", m.as_str()),
            ExecutionError::TransformFailed(m) => concat_str("reference transform failed: ", m.as_str()),
            ExecutionError::ToolNotFound(m) => concat_str("tool not found: ", m.as_str()),
            ExecutionError::NotImplemented => "executor not implemented".to_owned(),
        }
    }
}

/// The operation a claim check runs on the reference.
#[derive(Debug, PartialEq)]
pub enum ClaimCheckInner {
    /// A tool called with the reference, merged with extra arguments if any.
    Tool { name: String, args: Option<JsonValue> },
    /// The reference itself.
    Passthrough,
}

impl Default for ClaimCheckInner {
    fn default() -> (r: ClaimCheckInner)
        ensures
            r is Passthrough,
    {
        ClaimCheckInner::Passthrough
    }
}

/// Claim check configuration.
#[derive(Debug, PartialEq)]
pub struct ClaimCheckSpec {
    /// The tool that stores the payload and returns a reference.
    pub store_tool: String,
    /// The tool that returns the payload of a reference.
    pub retrieve_tool: String,
    /// The operation run on the reference.
    pub inner: ClaimCheckInner,
    /// Whether the result is the retrieved payload rather than the inner result.
    pub retrieve_at_end: bool,
    /// A dotted path (`input.field...`) selecting the reference inside the store's
    /// answer.
    pub reference_transform: Option<String>,
}

/// The value a reference transform selects in the store's answer: the dotted
/// path's keys followed from the answer, a leading `input` standing for the
/// answer itself. The error is the message of the first missing key.
pub open spec fn spec_transform(path: Seq<char>, answer: JsonView) -> Result<JsonView, Seq<char>> {
    let parts = dot_segments(path);
    let keys = if parts[0] == "input"@ {
        parts.drop_first()
    } else {
        parts
    };
    follow_keys(answer, keys)
}

/// Follows object keys from `v`; the error names the first key that is missing.
pub open spec fn follow_keys(v: JsonView, keys: Seq<Seq<char>>) -> Result<JsonView, Seq<char>>
    decreases keys.len(),
{
    if keys.len() == 0 {
        Ok(v)
    } else {
        match spec_get(v, keys[0]) {
            Some(c) => follow_keys(c, keys.drop_first()),
            None => Err("field '"@ + keys[0] + "' not found"@),
        }
    }
}

/// Two values merged: objects member by member, the overlay's members replacing
/// the base's; otherwise the overlay.
pub open spec fn spec_merge_json(base: JsonView, overlay: JsonView) -> JsonView {
    match (base, overlay) {
        (JsonView::Object(bs), JsonView::Object(os)) => JsonView::Object(insert_members(bs, os)),
        _ => overlay,
    }
}

/// `members` with each of `kvs` set in turn.
pub open spec fn insert_members(
    members: Seq<(Seq<char>, JsonView)>,
    kvs: Seq<(Seq<char>, JsonView)>,
) -> Seq<(Seq<char>, JsonView)>
    decreases kvs.len(),
{
    if kvs.len() == 0 {
        members
    } else {
        spec_insert(insert_members(members, kvs.drop_last()), kvs.last().0, kvs.last().1)
    }
}

fn follow_path(v: &JsonValue, keys: &Vec<String>, from: usize) -> (r: Result<JsonValue, ExecutionError>)
    requires
        from <= keys@.len(),
    ensures
        match follow_keys(v@, strings_view(keys@).skip(from as int)) {
            Ok(x) => r matches Ok(y) && y@ == x,
            Err(m) => r matches Err(ExecutionError::TransformFailed(e)) && e@ == m,
        },
    decreases keys@.len() - from,
{
    let ghost ks = strings_view(keys@).skip(from as int);
    if from == keys.len() {
        return Ok(v.duplicate());
    }
    assert(ks[0] == keys@[from as int]@);
    assert(ks.drop_first() =~= strings_view(keys@).skip(from + 1));
    match v.get(keys[from].as_str()) {
        Some(c) => follow_path(c, keys, from + 1),
        None => {
            let m = concat_str("field '", keys[from].as_str());
            Err(ExecutionError::TransformFailed(concat_str(m.as_str(), "' not found")))
        },
    }
}

/// The reference a transform selects in the store's answer.
pub fn apply_transform(transform: &str, answer: &JsonValue) -> (r: Result<JsonValue, ExecutionError>)
    ensures
        match spec_transform(transform@, answer@) {
            Ok(x) => r matches Ok(y) && y@ == x,
            Err(m) => r matches Err(ExecutionError::TransformFailed(e)) && e@ == m,
        },
{
    let parts = split_dots(transform);
    let ghost ps = strings_view(parts@);
    proof {
        lemma_dot_segments_nonempty(transform@);
        assert(ps[0] == parts@[0]@);
    }
    if str_eq(parts[0].as_str(), "input") {
        assert(ps.skip(1) =~= ps.drop_first());
        follow_path(answer, &parts, 1)
    } else {
        assert(ps.skip(0) =~= ps);
        follow_path(answer, &parts, 0)
    }
}

/// Merges extra arguments into the reference: objects member by member, the
/// extra arguments winning; otherwise the extra arguments.
pub fn merge_json(base: &JsonValue, overlay: &JsonValue) -> (r: JsonValue)
    ensures
        r@ == spec_merge_json(base@, overlay@),
{
    match (base, overlay) {
        (JsonValue::Object(bs), JsonValue::Object(os)) => {
            let mut members: Vec<(String, JsonValue)> = Vec::new();
            let mut i: usize = 0;
            while i < bs.len()
                invariant
                    i <= bs@.len(),
                    members_view(members@) == members_view(bs@).take(i as int),
                decreases bs@.len() - i,
            {
                let ghost before = members@;
                let k = bs[i].0.clone();
                let v = bs[i].1.duplicate();
                members.push((k, v));
                assert(members_view(members@) =~= members_view(before).push(members_view(bs@)[i as int]));
                assert(members_view(members@) =~= members_view(bs@).take(i + 1));
                i = i + 1;
            }
            assert(members_view(bs@).take(bs@.len() as int) =~= members_view(bs@));
            let ghost m0 = members_view(bs@);
            let ghost ov = members_view(os@);
            let mut j: usize = 0;
            assert(ov.take(0) =~= Seq::<(Seq<char>, JsonView)>::empty());
            while j < os.len()
                invariant
                    j <= os@.len(),
                    ov == members_view(os@),
                    members_view(members@) == insert_members(m0, ov.take(j as int)),
                decreases os@.len() - j,
            {
                assert(ov.take(j + 1).drop_last() =~= ov.take(j as int));
                assert(ov.take(j + 1).last() == ov[j as int]);
                object_insert(&mut members, os[j].0.clone(), os[j].1.duplicate());
                j = j + 1;
            }
            assert(ov.take(os@.len() as int) =~= ov);
            JsonValue::Object(members)
        },
        _ => overlay.duplicate(),
    }
}

/// Where a claim check stands.
#[derive(Debug)]
pub enum ClaimPhase {
    /// Waiting for the store tool's answer.
    Storing,
    /// Waiting for the inner tool's answer; the store's answer is kept.
    Processing { stored: JsonValue },
    /// Waiting for the retrieve tool's answer.
    Retrieving,
    /// The claim check is over.
    Done,
}

/// What the caller does next.
#[derive(Debug)]
pub enum ClaimAction {
    /// Call `tool` with `input`.
    Call { tool: String, input: JsonValue },
    /// The claim check is over, with this result.
    Finish(Result<JsonValue, ExecutionError>),
}

/// A claim check in progress.
#[derive(Debug)]
pub struct ClaimCheckRun {
    pub phase: ClaimPhase,
}

/// The answer after the store's answer and, if there is one, the inner result:
/// the retrieve call when the payload is to be retrieved, else the result.
pub open spec fn after_inner(spec: ClaimCheckSpec, stored: JsonView, inner: JsonView, run: ClaimCheckRun, action: ClaimAction) -> bool {
    if spec.retrieve_at_end {
        &&& run.phase is Retrieving
        &&& action matches ClaimAction::Call { tool, input } && tool@ == spec.retrieve_tool@ && input@ == stored
    } else {
        &&& run.phase is Done
        &&& action matches ClaimAction::Finish(Ok(v)) && v@ == inner
    }
}

impl ClaimCheckRun {
    /// Starts a claim check: the store tool is called with the payload.
    pub fn start(spec: &ClaimCheckSpec, input: JsonValue) -> (r: (ClaimCheckRun, ClaimAction))
        ensures
            r.0.phase is Storing,
            r.1 matches ClaimAction::Call { tool, input: i } && tool@ == spec.store_tool@ && i@ == input@,
    {
        (ClaimCheckRun { phase: ClaimPhase::Storing }, ClaimAction::Call { tool: spec.store_tool.clone(), input })
    }

    /// Advances a claim check that is not over with the answer to the call it asked
    /// for (or that call's error message).
    ///
    /// After the store: a failure is `StoreFailed`; otherwise the reference is the
    /// store's answer, or what the reference transform selects in it (a missing
    /// field is `TransformFailed`); a tool inner operation is then called with the
    /// reference merged with its extra arguments, a passthrough gives the reference.
    /// After the inner tool: a failure is `InnerOperationFailed`. Then, with
    /// `retrieve_at_end`, the retrieve tool is called with the store's answer (a
    /// failure is `RetrieveFailed`) and its answer is the result; otherwise the
    /// result is the inner result.
    pub fn advance(self, spec: &ClaimCheckSpec, outcome: Result<JsonValue, String>) -> (r: (ClaimCheckRun, ClaimAction))
        requires
            !(self.phase is Done),
        ensures
            match (self.phase, outcome) {
                (ClaimPhase::Storing, Err(e)) => r.0.phase is Done && (r.1 matches ClaimAction::Finish(
                    Err(ExecutionError::StoreFailed(m)),
                ) && m@ == e@),
                (ClaimPhase::Storing, Ok(stored)) => {
                    let reference = match spec.reference_transform {
                        Some(t) => spec_transform(t@, stored@),
                        None => Ok(stored@),
                    };
                    match reference {
                        Err(m) => r.0.phase is Done && (r.1 matches ClaimAction::Finish(
                            Err(ExecutionError::TransformFailed(e)),
                        ) && e@ == m),
                        Ok(rv) => match spec.inner {
                            ClaimCheckInner::Tool { name, args } => {
                                &&& r.0.phase matches ClaimPhase::Processing { stored: s } && s@ == stored@
                                &&& r.1 matches ClaimAction::Call { tool, input } && tool@ == name@ && input@
                                    == match args {
                                    Some(a) => spec_merge_json(rv, a@),
                                    None => rv,
                                }
                            },
                            ClaimCheckInner::Passthrough => after_inner(*spec, stored@, rv, r.0, r.1),
                        },
                    }
                },
                (ClaimPhase::Processing { stored }, Err(e)) => r.0.phase is Done && (r.1 matches ClaimAction::Finish(
                    Err(ExecutionError::InnerOperationFailed(m)),
                ) && m@ == e@),
                (ClaimPhase::Processing { stored }, Ok(v)) => after_inner(*spec, stored@, v@, r.0, r.1),
                (ClaimPhase::Retrieving, Err(e)) => r.0.phase is Done && (r.1 matches ClaimAction::Finish(
                    Err(ExecutionError::RetrieveFailed(m)),
                ) && m@ == e@),
                (ClaimPhase::Retrieving, Ok(v)) => r.0.phase is Done && (r.1 matches ClaimAction::Finish(Ok(x))
                    && x@ == v@),
                (ClaimPhase::Done, _) => false,
            },
    {
        match (self.phase, outcome) {
            (ClaimPhase::Storing, Err(e)) => (
                ClaimCheckRun { phase: ClaimPhase::Done },
                ClaimAction::Finish(Err(ExecutionError::StoreFailed(e))),
            ),
            (ClaimPhase::Storing, Ok(stored)) => {
                let reference = match &spec.reference_transform {
                    Some(t) => match apply_transform(t.as_str(), &stored) {
                        Ok(v) => v,
                        Err(e) => {
                            return (ClaimCheckRun { phase: ClaimPhase::Done }, ClaimAction::Finish(Err(e)));
                        },
                    },
                    None => stored.duplicate(),
                };
                match &spec.inner {
                    ClaimCheckInner::Tool { name, args } => {
                        let input = match args {
                            Some(a) => merge_json(&reference, a),
                            None => reference,
                        };
                        (
                            ClaimCheckRun { phase: ClaimPhase::Processing { stored } },
                            ClaimAction::Call { tool: name.clone(), input },
                        )
                    },
                    ClaimCheckInner::Passthrough => Self::finish_inner(spec, stored, reference),
                }
            },
            (ClaimPhase::Processing { stored }, Err(e)) => (
                ClaimCheckRun { phase: ClaimPhase::Done },
                ClaimAction::Finish(Err(ExecutionError::InnerOperationFailed(e))),
            ),
            (ClaimPhase::Processing { stored }, Ok(v)) => Self::finish_inner(spec, stored, v),
            (ClaimPhase::Retrieving, Err(e)) => (
                ClaimCheckRun { phase: ClaimPhase::Done },
                ClaimAction::Finish(Err(ExecutionError::RetrieveFailed(e))),
            ),
            (ClaimPhase::Retrieving, Ok(v)) => (ClaimCheckRun { phase: ClaimPhase::Done }, ClaimAction::Finish(Ok(v))),
            (ClaimPhase::Done, _) => vstd::pervasive::unreached(),
        }
    }

    fn finish_inner(spec: &ClaimCheckSpec, stored: JsonValue, inner: JsonValue) -> (r: (ClaimCheckRun, ClaimAction))
        ensures
            after_inner(*spec, stored@, inner@, r.0, r.1),
    {
        if spec.retrieve_at_end {
            (ClaimCheckRun { phase: ClaimPhase::Retrieving }, ClaimAction::Call { tool: spec.retrieve_tool.clone(), input: stored })
        } else {
            (ClaimCheckRun { phase: ClaimPhase::Done }, ClaimAction::Finish(Ok(inner)))
        }
    }
}

} // verus!

//! The filter pattern: the elements of an array that satisfy a predicate on one of
//! their fields.
//!
//! The library selects each element's field (a JSONPath query) and decides what
//! each operator answers and which elements are kept; the caller compares the
//! two numbers of the numeric operators as floating-point values.
use vstd::prelude::*;
use crate::json::{JsonValue, JsonView, items_view, group_json_view};
use crate::scatter_gather::{ExecutionError, not_array_error};
use crate::text::{concat_str, str_eq, str_to_chars};

use crate::jsonpath::{jsonpath_check, jsonpath_parse_error, first_node, query_first};

verus! {

broadcast use group_json_view;

/// How two numbers compare as floating-point values.
#[derive(Debug, Clone, Copy, PartialEq, Eq, Structural)]
pub enum NumericOrder {
    Less,
    Equal,
    Greater,
    /// At least one is not a number (NaN).
    Unordered,
}

/// Whether `pat` occurs in `s`.
pub open spec fn occurs_in(s: Seq<char>, pat: Seq<char>) -> bool {
    exists|i: int| 0 <= i && i + pat.len() <= s.len() && #[trigger] s.subrange(i, i + pat.len()) == pat
}

/// What a predicate answers: `Ok(keep)` or the message of a `PredicateError`.
///
/// `eq`/`ne`: the field equals (differs from) the target; a missing field counts
/// as equal to a null target. `gt`/`gte`/`lt`/`lte`: both must be numbers, and
/// their order decides. `contains`: both must be strings, and the target must
/// occur in the field. `in`: the target must be a list and the field present, and
/// the list must hold the field.
pub open spec fn spec_predicate(
    op: Seq<char>,
    field: Option<JsonView>,
    target: JsonView,
    order: NumericOrder,
) -> Result<bool, Seq<char>> {
    if op == "eq"@ {
        Ok(match field {
            Some(v) => v == target,
            None => target == JsonView::Null,
        })
    } else if op == "ne"@ {
        Ok(match field {
            Some(v) => v != target,
            None => target != JsonView::Null,
        })
    } else if op == "gt"@ || op == "gte"@ || op == "lt"@ || op == "lte"@ {
        if !(field matches Some(JsonView::Number(_))) {
            Err("field is not a number"@)
        } else if !(target is Number) {
            Err("target is not a number"@)
        } else if op == "gt"@ {
            Ok(order == NumericOrder::Greater)
        } else if op == "gte"@ {
            Ok(order == NumericOrder::Greater || order == NumericOrder::Equal)
        } else if op == "lt"@ {
            Ok(order == NumericOrder::Less)
        } else {
            Ok(order == NumericOrder::Less || order == NumericOrder::Equal)
        }
    } else if op == "contains"@ {
        match field {
            Some(JsonView::String(f)) => match target {
                JsonView::String(t) => Ok(occurs_in(f, t)),
                _ => Err("target is not a string"@),
            },
            _ => Err("field is not a string"@),
        }
    } else if op == "in"@ {
        match target {
            JsonView::Array(list) => match field {
                Some(v) => Ok(list.contains(v)),
                None => Err("field is null"@),
            },
            _ => Err("target is not an array"@),
        }
    } else {
        Err("unknown operator: "@ + op)
    }
}

/// The elements kept: those whose answer is `true`, in order; the first error
/// among the answers instead, if any.
pub open spec fn spec_keep(items: Seq<JsonView>, answers: Seq<Result<bool, ExecutionError>>) -> Result<Seq<JsonView>, ExecutionError>
    decreases answers.len(),
{
    if answers.len() == 0 || items.len() < answers.len() {
        Ok(Seq::empty())
    } else {
        let n = answers.len() - 1;
        match spec_keep(items.take(n), answers.take(n)) {
            Err(e) => Err(e),
            Ok(kept) => match answers[n] {
                Err(e) => Err(e),
                Ok(true) => Ok(kept.push(items[n])),
                Ok(false) => Ok(kept),
            },
        }
    }
}

/// When every predicate answered, filtering keeps exactly the elements whose
/// predicate held, in their order: the kept elements are the items at strictly
/// increasing positions `idx`, and a position is among them exactly when its
/// answer is `true`.
pub proof fn law_keep_exact(items: Seq<JsonView>, answers: Seq<Result<bool, ExecutionError>>) -> (idx: Seq<int>)
    requires
        items.len() == answers.len(),
        forall|i: int| 0 <= i < answers.len() ==> answers[i] is Ok,
    ensures
        spec_keep(items, answers) is Ok,
        spec_keep(items, answers)->Ok_0.len() == idx.len(),
        forall|k: int|
            0 <= k < idx.len() ==> 0 <= #[trigger] idx[k] < items.len() && spec_keep(items, answers)->Ok_0[k]
                == items[idx[k]],
        forall|k: int, l: int| 0 <= k < l < idx.len() ==> #[trigger] idx[k] < #[trigger] idx[l],
        forall|i: int|
            0 <= i < answers.len() ==> (#[trigger] answers[i] == Ok::<bool, ExecutionError>(true) <==> idx.contains(i)),
    decreases answers.len(),
{
    if answers.len() == 0 {
        Seq::empty()
    } else {
        let n = answers.len() - 1;
        let it = items.take(n);
        let at = answers.take(n);
        assert forall|i: int| 0 <= i < n implies #[trigger] at[i] == answers[i] by {}
        let prev = law_keep_exact(it, at);
        let kept = spec_keep(it, at)->Ok_0;
        assert(answers[n] is Ok);
        if answers[n] == Ok::<bool, ExecutionError>(true) {
            let idx = prev.push(n);
            assert(spec_keep(items, answers) == Ok::<Seq<JsonView>, ExecutionError>(kept.push(items[n])));
            assert forall|k: int| 0 <= k < idx.len() implies 0 <= #[trigger] idx[k] < items.len()
                && spec_keep(items, answers)->Ok_0[k] == items[idx[k]] by {
                if k < prev.len() {
                    assert(idx[k] == prev[k]);
                    assert(it[prev[k]] == items[prev[k]]);
                }
            }
            assert forall|k: int, l: int| 0 <= k < l < idx.len() implies #[trigger] idx[k] < #[trigger] idx[l] by {
                assert(idx[k] == prev[k]);
                if l < prev.len() {
                    assert(idx[l] == prev[l]);
                }
            }
            assert forall|i: int| 0 <= i < answers.len() implies (#[trigger] answers[i] == Ok::<bool, ExecutionError>(
                true) <==> idx.contains(i)) by {
                if i < n {
                    assert(at[i] == answers[i]);
                    if idx.contains(i) {
                        let k = choose|k: int| 0 <= k < idx.len() && idx[k] == i;
                        if k == prev.len() {
                            assert(idx[k] == n);
                        }
                        assert(prev[k] == i);
                    }
                    if prev.contains(i) {
                        let k = choose|k: int| 0 <= k < prev.len() && prev[k] == i;
                        assert(idx[k] == i);
                    }
                } else {
                    assert(idx[prev.len() as int] == n);
                }
            }
            idx
        } else {
            assert(spec_keep(items, answers) == Ok::<Seq<JsonView>, ExecutionError>(kept));
            assert forall|k: int| 0 <= k < prev.len() implies 0 <= #[trigger] prev[k] < items.len()
                && spec_keep(items, answers)->Ok_0[k] == items[prev[k]] by {
                assert(it[prev[k]] == items[prev[k]]);
            }
            assert forall|i: int| 0 <= i < answers.len() implies (#[trigger] answers[i] == Ok::<bool, ExecutionError>(
                true) <==> prev.contains(i)) by {
                if i < n {
                    assert(at[i] == answers[i]);
                } else if prev.contains(i) {
                    let k = choose|k: int| 0 <= k < prev.len() && prev[k] == i;
                    assert(prev[k] < it.len());
                }
            }
            prev
        }
    }
}

fn substring_of(field: &str, target: &str) -> (r: bool)
    ensures
        r == occurs_in(field@, target@),
{
    let f = str_to_chars(field);
    let t = str_to_chars(target);
    if t.len() > f.len() {
        proof {
            assert forall|i: int| 0 <= i && i + t@.len() <= f@.len() implies #[trigger] f@.subrange(i, i + t@.len())
                != t@ by {}
        }
        return false;
    }
    let mut i: usize = 0;
    let flen = f.len();
    let last = flen - t.len();
    while i <= last
        invariant
            flen == f@.len(),
            f@ == field@,
            t@ == target@,
            t@.len() <= f@.len(),
            last == f@.len() - t@.len(),
            i <= last + 1,
            forall|k: int| 0 <= k < i ==> #[trigger] f@.subrange(k, k + t@.len()) != t@,
        decreases last + 1 - i,
    {
        let mut j: usize = 0;
        let mut same = true;
        while j < t.len()
            invariant
                f@ == field@,
                t@ == target@,
                i <= last,
                flen == f@.len(),
                t@.len() <= f@.len(),
                last == f@.len() - t@.len(),
                j <= t@.len(),
                same == (forall|m: int| 0 <= m < j ==> f@[i + m] == t@[m]),
            decreases t@.len() - j,
        {
            if f[i + j] != t[j] {
                same = false;
            }
            j = j + 1;
        }
        if same {
            assert(f@.subrange(i as int, i + t@.len()) =~= t@);
            return true;
        }
        proof {
            let m = choose|m: int| 0 <= m < t@.len() && f@[i + m] != t@[m];
            assert(f@.subrange(i as int, i + t@.len())[m] != t@[m]);
        }
        if i == last {
            proof {
                assert forall|k: int| 0 <= k && k + t@.len() <= f@.len() implies #[trigger] f@.subrange(k, k + t@.len())
                    != t@ by {
                    assert(k <= i);
                }
            }
            return false;
        }
        i = i + 1;
    }
    false
}

/// Whether `list` holds a value equal to `v`.
fn list_contains(list: &Vec<JsonValue>, v: &JsonValue) -> (r: bool)
    ensures
        r == items_view(list@).contains(v@),
{
    let mut i: usize = 0;
    while i < list.len()
        invariant
            i <= list@.len(),
            forall|k: int| 0 <= k < i ==> list@[k]@ != v@,
        decreases list@.len() - i,
    {
        if list[i].equals(v) {
            assert(items_view(list@)[i as int] == v@);
            return true;
        }
        i = i + 1;
    }
    proof {
        if items_view(list@).contains(v@) {
            let k = choose|k: int| 0 <= k < items_view(list@).len() && items_view(list@)[k] == v@;
            assert(list@[k]@ == v@);
        }
    }
    false
}

/// A filter pattern: the elements of the input array that satisfy the predicate.
#[derive(Debug)]
pub struct FilterSpec {
    pub predicate: FieldPredicate,
}

/// A comparison of the field that a JSONPath selects in an element with a value.
#[derive(Debug)]
pub struct FieldPredicate {
    /// JSONPath to the field
    pub field: String,
    /// Comparison operator (`eq`, `ne`, `gt`, `gte`, `lt`, `lte`, `contains`, `in`)
    pub op: String,
    /// The value compared against
    pub value: JsonValue,
}

impl FieldPredicate {
    /// A predicate with the given field, operator and value.
    pub fn new(field: String, op: String, value: JsonValue) -> (r: FieldPredicate)
        ensures
            r.field@ == field@,
            r.op@ == op@,
            r.value@ == value@,
    {
        FieldPredicate { field, op, value }
    }

    /// The field equals the value.
    pub fn eq(field: String, value: JsonValue) -> (r: FieldPredicate)
        ensures
            r.field@ == field@,
            r.op@ == "eq"@,
            r.value@ == value@,
    {
        FieldPredicate { field, op: "eq".to_owned(), value }
    }

    /// The field is a string that holds the given text.
    pub fn contains(field: String, value: String) -> (r: FieldPredicate)
        ensures
            r.field@ == field@,
            r.op@ == "contains"@,
            r.value@ == JsonView::String(value@),
    {
        FieldPredicate { field, op: "contains".to_owned(), value: JsonValue::String(value) }
    }
}

/// Executor of filter patterns.
pub struct FilterExecutor;

impl FilterExecutor {
    /// The elements to filter; an input that is not an array is a `TypeError`.
    pub fn items(input: JsonValue) -> (r: Result<Vec<JsonValue>, ExecutionError>)
        ensures
            match input@ {
                JsonView::Array(items) => r matches Ok(v) && items_view(v@) == items,
                _ => r matches Err(e) && not_array_error(input@, e),
            },
    {
        match input {
            JsonValue::Array(items) => Ok(items),
            other => Err(ExecutionError::TypeError { expected: "array".to_owned(), actual: other.kind_name() }),
        }
    }

    /// The field of each element: the first node that `path` (a JSONPath) selects
    /// in it, absent when it selects nothing. A path that is not a JSONPath is a
    /// `JsonPathError` naming the path and the parse error.
    pub fn select_fields(path: &str, items: &Vec<JsonValue>) -> (r: Result<Vec<Option<JsonValue>>, ExecutionError>)
        ensures
            match jsonpath_parse_error(path@) {
                Some(m) => r matches Err(ExecutionError::JsonPathError(e)) && e@ == path@ + ": "@ + m,
                None => r matches Ok(fs) && fs@.len() == items@.len() && forall|i: int|
                    0 <= i < items@.len() ==> match first_node(path@, #[trigger] items@[i]@) {
                        Some(n) => fs@[i] matches Some(f) && f@ == n,
                        None => fs@[i] is None,
                    },
            },
    {
        match jsonpath_check(path) {
            Some(e) => {
                let m = concat_str(path, ": ");
                return Err(ExecutionError::JsonPathError(concat_str(m.as_str(), e.as_str())));
            },
            None => {},
        }
        let mut fs: Vec<Option<JsonValue>> = Vec::new();
        let mut i: usize = 0;
        while i < items.len()
            invariant
                i <= items@.len(),
                fs@.len() == i,
                jsonpath_parse_error(path@) is None,
                forall|q: int| 0 <= q < i ==> match first_node(path@, #[trigger] items@[q]@) {
                    Some(n) => fs@[q] matches Some(f) && f@ == n,
                    None => fs@[q] is None,
                },
            decreases items@.len() - i,
        {
            let f = match query_first(path, &items[i]) {
                Ok(f) => f,
                Err(_) => None,
            };
            fs.push(f);
            i = i + 1;
        }
        Ok(fs)
    }

    /// What the predicate `op` answers for an element whose field is `field` (absent
    /// when the query selects nothing), against `target`. `order` is how field and
    /// target compare as numbers; only the numeric operators read it.
    pub fn evaluate_predicate(op: &str, field: Option<&JsonValue>, target: &JsonValue, order: NumericOrder) -> (r:
        Result<bool, ExecutionError>)
        ensures
            match spec_predicate(
                op@,
                match field {
                    Some(v) => Some(v@),
                    None => None,
                },
                target@,
                order,
            ) {
                Ok(b) => r == Ok::<bool, ExecutionError>(b),
                Err(m) => r matches Err(ExecutionError::PredicateError(e)) && e@ == m,
            },
    {
        let ghost fv = match field {
            Some(v) => Some(v@),
            None => None::<JsonView>,
        };
        if str_eq(op, "eq") {
            return Ok(match field {
                Some(v) => v.equals(target),
                None => target.is_null(),
            });
        }
        if str_eq(op, "ne") {
            return Ok(match field {
                Some(v) => !v.equals(target),
                None => !target.is_null(),
            });
        }
        let gt = str_eq(op, "gt");
        let gte = str_eq(op, "gte");
        let lt = str_eq(op, "lt");
        let lte = str_eq(op, "lte");
        if gt || gte || lt || lte {
            let field_is_number = match field {
                Some(JsonValue::Number(_)) => true,
                _ => false,
            };
            if !field_is_number {
                return Err(ExecutionError::PredicateError("field is not a number".to_owned()));
            }
            let target_is_number = match target {
                JsonValue::Number(_) => true,
                _ => false,
            };
            if !target_is_number {
                return Err(ExecutionError::PredicateError("target is not a number".to_owned()));
            }
            return Ok(
                if gt {
                    order == NumericOrder::Greater
                } else if gte {
                    order == NumericOrder::Greater || order == NumericOrder::Equal
                } else if lt {
                    order == NumericOrder::Less
                } else {
                    order == NumericOrder::Less || order == NumericOrder::Equal
                },
            );
        }
        if str_eq(op, "contains") {
            return match field {
                Some(JsonValue::String(f)) => match target {
                    JsonValue::String(t) => Ok(substring_of(f.as_str(), t.as_str())),
                    _ => Err(ExecutionError::PredicateError("target is not a string".to_owned())),
                },
                _ => Err(ExecutionError::PredicateError("field is not a string".to_owned())),
            };
        }
        if str_eq(op, "in") {
            return match target {
                JsonValue::Array(list) => match field {
                    Some(v) => {
                        proof {
                            crate::json::lemma_array_view(*list);
                        }
                        Ok(list_contains(list, v))
                    },
                    None => Err(ExecutionError::PredicateError("field is null".to_owned())),
                },
                _ => Err(ExecutionError::PredicateError("target is not an array".to_owned())),
            };
        }
        Err(ExecutionError::PredicateError(concat_str("unknown operator: ", op)))
    }

    /// The elements whose predicate answered `true`, in order; the first error
    /// among the answers instead.
    pub fn keep(items: Vec<JsonValue>, answers: Vec<Result<bool, ExecutionError>>) -> (r: Result<JsonValue, ExecutionError>)
        requires
            answers@.len() == items@.len(),
        ensures
            match spec_keep(items_view(items@), answers@) {
                Ok(kept) => r matches Ok(v) && v@ == JsonView::Array(kept),
                Err(e) => r == Err::<JsonValue, ExecutionError>(e),
            },
    {
        let ghost iv = items_view(items@);
        let mut out: Vec<JsonValue> = Vec::new();
        let mut i: usize = 0;
        assert(items_view(out@) =~= Seq::<JsonView>::empty());
        while i < answers.len()
            invariant
                i <= answers@.len(),
                answers@.len() == items@.len(),
                iv == items_view(items@),
                spec_keep(iv.take(i as int), answers@.take(i as int)) == Ok::<Seq<JsonView>, ExecutionError>(
                    items_view(out@),
                ),
            decreases answers@.len() - i,
        {
            assert(iv.take(i + 1).take(i as int) =~= iv.take(i as int));
            assert(answers@.take(i + 1).take(i as int) =~= answers@.take(i as int));
            match &answers[i] {
                Ok(true) => {
                    let ghost before = out@;
                    out.push(items[i].duplicate());
                    assert(items_view(out@) =~= items_view(before).push(iv[i as int]));
                },
                Ok(false) => {},
                Err(e) => {
                    proof {
                        lemma_keep_err_stays(iv, answers@, i as int + 1);
                    }
                    return Err(e.duplicate());
                },
            }
            i = i + 1;
        }
        assert(iv.take(answers@.len() as int) =~= iv);
        assert(answers@.take(answers@.len() as int) =~= answers@);
        Ok(JsonValue::Array(out))
    }
}

/// Once an answer has failed, the result stays that failure.
proof fn lemma_keep_err_stays(items: Seq<JsonView>, answers: Seq<Result<bool, ExecutionError>>, k: int)
    requires
        0 <= k <= answers.len(),
        answers.len() == items.len(),
        spec_keep(items.take(k), answers.take(k)) is Err,
    ensures
        spec_keep(items, answers) == spec_keep(items.take(k), answers.take(k)),
    decreases answers.len() - k,
{
    if k < answers.len() {
        assert(items.take(k + 1).take(k) =~= items.take(k));
        assert(answers.take(k + 1).take(k) =~= answers.take(k));
        lemma_keep_err_stays(items, answers, k + 1);
    } else {
        assert(items.take(k) =~= items);
        assert(answers.take(k) =~= answers);
    }
}

/// What the predicate answers for each element, given the field each selects
/// and how each field and the value compare as numbers.
pub open spec fn filter_answers(
    op: Seq<char>,
    fields: Seq<Option<JsonView>>,
    target: JsonView,
    orders: Seq<NumericOrder>,
) -> Seq<Result<bool, Seq<char>>> {
    Seq::new(fields.len(), |i: int| spec_predicate(op, fields[i], target, orders[i]))
}

/// The elements whose answer is `true`, in order; the first error's text among
/// the answers instead, if any.
pub open spec fn spec_filtered(items: Seq<JsonView>, answers: Seq<Result<bool, Seq<char>>>) -> Result<
    Seq<JsonView>,
    Seq<char>,
>
    decreases answers.len(),
{
    if answers.len() == 0 || items.len() < answers.len() {
        Ok(Seq::empty())
    } else {
        let n = answers.len() - 1;
        match spec_filtered(items.take(n), answers.take(n)) {
            Err(e) => Err(e),
            Ok(kept) => match answers[n] {
                Err(e) => Err(e),
                Ok(true) => Ok(kept.push(items[n])),
                Ok(false) => Ok(kept),
            },
        }
    }
}

proof fn lemma_filtered_err_stays(items: Seq<JsonView>, answers: Seq<Result<bool, Seq<char>>>, k: int)
    requires
        0 <= k <= answers.len(),
        answers.len() == items.len(),
        spec_filtered(items.take(k), answers.take(k)) is Err,
    ensures
        spec_filtered(items, answers) == spec_filtered(items.take(k), answers.take(k)),
    decreases answers.len() - k,
{
    if k < answers.len() {
        assert(items.take(k + 1).take(k) =~= items.take(k));
        assert(answers.take(k + 1).take(k) =~= answers.take(k));
        lemma_filtered_err_stays(items, answers, k + 1);
    } else {
        assert(items.take(k) =~= items);
        assert(answers.take(k) =~= answers);
    }
}

/// Filtering without a predicate error keeps exactly the elements whose
/// predicate holds, in their order: the kept elements are the items at strictly
/// increasing positions `idx`, and a position is among them exactly when its
/// answer is `true`; with an error, the first one in order is the result.
pub proof fn law_filtered_exact(items: Seq<JsonView>, answers: Seq<Result<bool, Seq<char>>>) -> (idx: Seq<int>)
    requires
        items.len() == answers.len(),
    ensures
        (forall|i: int| 0 <= i < answers.len() ==> answers[i] is Ok) ==> {
            &&& spec_filtered(items, answers) is Ok
            &&& spec_filtered(items, answers)->Ok_0.len() == idx.len()
            &&& forall|k: int|
                0 <= k < idx.len() ==> 0 <= #[trigger] idx[k] < items.len() && spec_filtered(items, answers)->Ok_0[k]
                    == items[idx[k]]
            &&& forall|k: int, l: int| 0 <= k < l < idx.len() ==> #[trigger] idx[k] < #[trigger] idx[l]
            &&& forall|i: int|
                0 <= i < answers.len() ==> (#[trigger] answers[i] == Ok::<bool, Seq<char>>(true) <==> idx.contains(i))
        },
        (exists|i: int| 0 <= i < answers.len() && answers[i] is Err) ==> exists|i: int|
            0 <= i < answers.len() && answers[i] is Err && (forall|j: int| 0 <= j < i ==> answers[j] is Ok)
                && spec_filtered(items, answers) == Err::<Seq<JsonView>, Seq<char>>(answers[i]->Err_0),
    decreases answers.len(),
{
    if answers.len() == 0 {
        Seq::empty()
    } else {
        let n = answers.len() - 1;
        let it = items.take(n);
        let at = answers.take(n);
        assert forall|i: int| 0 <= i < n implies #[trigger] at[i] == answers[i] by {}
        let prev = law_filtered_exact(it, at);
        if forall|i: int| 0 <= i < answers.len() ==> answers[i] is Ok {
            assert forall|i: int| 0 <= i < at.len() implies at[i] is Ok by {
                assert(at[i] == answers[i]);
            }
            let kept = spec_filtered(it, at)->Ok_0;
            if answers[n] == Ok::<bool, Seq<char>>(true) {
                let idx = prev.push(n);
                assert(spec_filtered(items, answers) == Ok::<Seq<JsonView>, Seq<char>>(kept.push(items[n])));
                assert forall|k: int| 0 <= k < idx.len() implies 0 <= #[trigger] idx[k] < items.len()
                    && spec_filtered(items, answers)->Ok_0[k] == items[idx[k]] by {
                    if k < prev.len() {
                        assert(idx[k] == prev[k]);
                        assert(it[prev[k]] == items[prev[k]]);
                    }
                }
                assert forall|k: int, l: int| 0 <= k < l < idx.len() implies #[trigger] idx[k] < #[trigger] idx[l] by {
                    assert(idx[k] == prev[k]);
                    if l < prev.len() {
                        assert(idx[l] == prev[l]);
                    }
                }
                assert forall|i: int| 0 <= i < answers.len() implies (#[trigger] answers[i] == Ok::<bool, Seq<char>>(
                    true) <==> idx.contains(i)) by {
                    if i < n {
                        assert(at[i] == answers[i]);
                        if idx.contains(i) {
                            let k = choose|k: int| 0 <= k < idx.len() && idx[k] == i;
                            if k == prev.len() {
                                assert(idx[k] == n);
                            }
                            assert(prev[k] == i);
                        }
                        if prev.contains(i) {
                            let k = choose|k: int| 0 <= k < prev.len() && prev[k] == i;
                            assert(idx[k] == i);
                        }
                    } else {
                        assert(idx[prev.len() as int] == n);
                    }
                }
                return idx;
            } else {
                assert(spec_filtered(items, answers) == Ok::<Seq<JsonView>, Seq<char>>(kept));
                assert forall|k: int| 0 <= k < prev.len() implies 0 <= #[trigger] prev[k] < items.len()
                    && spec_filtered(items, answers)->Ok_0[k] == items[prev[k]] by {
                    assert(it[prev[k]] == items[prev[k]]);
                }
                assert forall|i: int| 0 <= i < answers.len() implies (#[trigger] answers[i] == Ok::<bool, Seq<char>>(
                    true) <==> prev.contains(i)) by {
                    if i < n {
                        assert(at[i] == answers[i]);
                    } else if prev.contains(i) {
                        let k = choose|k: int| 0 <= k < prev.len() && prev[k] == i;
                        assert(prev[k] < it.len());
                    }
                }
                return prev;
            }
        } else {
            if exists|i: int| 0 <= i < at.len() && at[i] is Err {
                let i = choose|i: int|
                    0 <= i < at.len() && at[i] is Err && (forall|j: int| 0 <= j < i ==> at[j] is Ok)
                        && spec_filtered(it, at) == Err::<Seq<JsonView>, Seq<char>>(at[i]->Err_0);
                assert(answers[i] == at[i]);
                assert forall|j: int| 0 <= j < i implies answers[j] is Ok by {
                    assert(answers[j] == at[j]);
                }
            } else {
                assert forall|j: int| 0 <= j < n implies answers[j] is Ok by {
                    assert(answers[j] == at[j]);
                    assert(!(at[j] is Err));
                }
                assert(answers[n] is Err);
                assert forall|i: int| 0 <= i < at.len() implies at[i] is Ok by {
                    assert(!(at[i] is Err));
                }
            }
            prev
        }
    }
}

impl FilterExecutor {
    /// Filters the elements: the predicate is answered for each element, from the
    /// field it selects and how that field and the value compare as numbers, and
    /// the elements it holds for are kept, in order (see `spec_filtered`).
    pub fn apply(
        spec: &FilterSpec,
        items: Vec<JsonValue>,
        fields: &Vec<Option<JsonValue>>,
        orders: &Vec<NumericOrder>,
    ) -> (r: Result<JsonValue, ExecutionError>)
        requires
            fields@.len() == items@.len(),
            orders@.len() == items@.len(),
        ensures
            match spec_filtered(
                items_view(items@),
                filter_answers(spec.predicate.op@, opt_views(fields@), spec.predicate.value@, orders@),
            ) {
                Ok(kept) => r matches Ok(v) && v@ == JsonView::Array(kept),
                Err(m) => r matches Err(ExecutionError::PredicateError(e)) && e@ == m,
            },
    {
        let ghost iv = items_view(items@);
        let ghost ans = filter_answers(spec.predicate.op@, opt_views(fields@), spec.predicate.value@, orders@);
        let mut out: Vec<JsonValue> = Vec::new();
        let mut i: usize = 0;
        assert(items_view(out@) =~= Seq::<JsonView>::empty());
        while i < items.len()
            invariant
                i <= items@.len(),
                fields@.len() == items@.len(),
                orders@.len() == items@.len(),
                iv == items_view(items@),
                ans == filter_answers(spec.predicate.op@, opt_views(fields@), spec.predicate.value@, orders@),
                ans.len() == items@.len(),
                spec_filtered(iv.take(i as int), ans.take(i as int)) == Ok::<Seq<JsonView>, Seq<char>>(items_view(out@)),
            decreases items@.len() - i,
        {
            assert(iv.take(i + 1).take(i as int) =~= iv.take(i as int));
            assert(ans.take(i + 1).take(i as int) =~= ans.take(i as int));
            let field = match &fields[i] {
                Some(v) => Some(v),
                None => None,
            };
            let answer = Self::evaluate_predicate(spec.predicate.op.as_str(), field, &spec.predicate.value, orders[i]);
            assert(opt_views(fields@)[i as int] == match field {
                Some(v) => Some(v@),
                None => None::<JsonView>,
            });
            match answer {
                Ok(true) => {
                    let ghost before = out@;
                    out.push(items[i].duplicate());
                    assert(items_view(out@) =~= items_view(before).push(iv[i as int]));
                },
                Ok(false) => {},
                Err(e) => {
                    proof {
                        lemma_filtered_err_stays(iv, ans, i as int + 1);
                    }
                    return Err(e);
                },
            }
            i = i + 1;
        }
        assert(iv.take(items@.len() as int) =~= iv);
        assert(ans.take(items@.len() as int) =~= ans);
        Ok(JsonValue::Array(out))
    }
}

/// The views of optional values.
pub open spec fn opt_views(vs: Seq<Option<JsonValue>>) -> Seq<Option<JsonView>> {
    vs.map_values(|v: Option<JsonValue>| match v {
        Some(x) => Some(x@),
        None => None,
    })
}

} // verus!

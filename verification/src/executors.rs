//! Decisions of the map-each and timeout executors. The calls they wrap are made
//! by the caller, which hands back what came of them.
use vstd::prelude::*;
use crate::duration::{Duration, NANOS_PER_MILLI};
use crate::json::{JsonValue, JsonView, items_view, spec_get, group_json_view};
use crate::scatter_gather::{ExecutionError, not_array_error};
use crate::text::{str_to_chars, slice_to_string, concat_str, strings_view};

verus! {

broadcast use group_json_view;

/// The first error among `results`, or all their values when none failed.
pub open spec fn spec_gather(results: Seq<Result<JsonValue, ExecutionError>>) -> Result<Seq<JsonView>, ExecutionError>
    decreases results.len(),
{
    if results.len() == 0 {
        Ok(Seq::empty())
    } else {
        match spec_gather(results.drop_last()) {
            Err(e) => Err(e),
            Ok(vs) => match results.last() {
                Ok(v) => Ok(vs.push(v@)),
                Err(e) => Err(e),
            },
        }
    }
}

/// Executor of map-each patterns: the inner operation runs on each item of an
/// array, in order, and stops at the first failure.
pub struct MapEachExecutor;

impl MapEachExecutor {
    /// The items the inner operation runs on; an input that is not an array is a
    /// `TypeError`.
    pub fn items(input: JsonValue) -> (r: Result<Vec<JsonValue>, ExecutionError>)
        ensures
            match input@ {
                JsonView::Array(items) => r matches Ok(v) && items_view(v@) == items,
                _ => r matches Err(e) && not_array_error(input@, e),
            },
    {
        match input {
            JsonValue::Array(items) => Ok(items),
            other => Err(ExecutionError::TypeError { expected: "array".to_owned(), actual: other.kind_name() }),
        }
    }

    /// The result of the pattern from the results of the items run so far: the
    /// first failure, or the array of the results in order.
    pub fn gather(results: Vec<Result<JsonValue, ExecutionError>>) -> (r: Result<JsonValue, ExecutionError>)
        ensures
            match spec_gather(results@) {
                Ok(vs) => r matches Ok(v) && v@ == JsonView::Array(vs),
                Err(e) => r == Err::<JsonValue, ExecutionError>(e),
            },
    {
        let mut out: Vec<JsonValue> = Vec::new();
        let mut i: usize = 0;
        assert(results@.take(0) =~= Seq::<Result<JsonValue, ExecutionError>>::empty());
        assert(items_view(out@) =~= Seq::<JsonView>::empty());
        while i < results.len()
            invariant
                i <= results@.len(),
                spec_gather(results@.take(i as int)) == Ok::<Seq<JsonView>, ExecutionError>(items_view(out@)),
            decreases results@.len() - i,
        {
            assert(results@.take(i + 1).drop_last() =~= results@.take(i as int));
            assert(results@.take(i + 1).last() == results@[i as int]);
            match &results[i] {
                Ok(v) => {
                    let ghost before = out@;
                    out.push(v.duplicate());
                    assert(items_view(out@) =~= items_view(before).push(results@[i as int]->Ok_0@));
                },
                Err(e) => {
                    proof {
                        lemma_gather_err_stays(results@, i as int + 1);
                    }
                    return Err(e.duplicate());
                },
            }
            i = i + 1;
        }
        assert(results@.take(results@.len() as int) =~= results@);
        Ok(JsonValue::Array(out))
    }
}

/// Once gathering has failed, it stays failed with the same error.
proof fn lemma_gather_err_stays(results: Seq<Result<JsonValue, ExecutionError>>, k: int)
    requires
        0 <= k <= results.len(),
        spec_gather(results.take(k)) is Err,
    ensures
        spec_gather(results) == spec_gather(results.take(k)),
    decreases results.len() - k,
{
    if k < results.len() {
        assert(results.take(k + 1).drop_last() =~= results.take(k));
        lemma_gather_err_stays(results, k + 1);
    } else {
        assert(results.take(k) =~= results);
    }
}

/// What a timeout pattern does once its inner operation has run out of time.
#[derive(Debug, Clone, PartialEq, Eq)]
pub enum TimeoutOutcome {
    /// Run the fallback operation on the same input.
    RunFallback,
    /// Fail with this error.
    Fail(ExecutionError),
}

/// Executor of timeout patterns.
pub struct TimeoutExecutor;

impl TimeoutExecutor {
    /// The time the inner operation is given.
    pub fn limit(duration_ms: u32) -> (d: Duration)
        ensures
            d@ == duration_ms * NANOS_PER_MILLI,
    {
        Duration::from_millis(duration_ms as u64)
    }

    /// The outcome once the inner operation has exceeded `duration_ms`: the
    /// fallback when there is one, else a `Timeout` error naming the limit.
    pub fn on_elapsed(duration_ms: u32, has_fallback: bool) -> (r: TimeoutOutcome)
        ensures
            has_fallback ==> r == TimeoutOutcome::RunFallback,
            !has_fallback ==> r == TimeoutOutcome::Fail(ExecutionError::Timeout(duration_ms)),
    {
        if has_fallback {
            TimeoutOutcome::RunFallback
        } else {
            TimeoutOutcome::Fail(ExecutionError::Timeout(duration_ms))
        }
    }
}

/// The number of bytes of a character in UTF-8.
pub open spec fn char_width(c: char) -> nat {
    if (c as u32) <= 0x7F {
        1
    } else if (c as u32) <= 0x7FF {
        2
    } else if (c as u32) <= 0xFFFF {
        3
    } else {
        4
    }
}

/// The number of bytes of a text in UTF-8.
pub open spec fn utf8_len(s: Seq<char>) -> nat
    decreases s.len(),
{
    if s.len() == 0 {
        0
    } else {
        char_width(s[0]) + utf8_len(s.drop_first())
    }
}

/// How many characters, from the start of `s`, fit in `budget` bytes.
pub open spec fn fitting_chars(s: Seq<char>, budget: int) -> nat
    decreases s.len(),
{
    if s.len() == 0 || char_width(s[0]) > budget {
        0
    } else {
        1 + fitting_chars(s.drop_first(), budget - char_width(s[0]))
    }
}

/// The text shown for a serialized JSON value in step logs: the text itself when
/// it has at most `max_bytes` bytes; otherwise the longest run of its first
/// characters that takes at most `max_bytes - 15` bytes (none when
/// `max_bytes < 15`), followed by `...[truncated]`.
pub open spec fn spec_truncated(s: Seq<char>, max_bytes: usize) -> Seq<char> {
    if utf8_len(s) <= max_bytes {
        s
    } else {
        let keep: int = if max_bytes >= 15 { max_bytes - 15 } else { 0 };
        s.take(fitting_chars(s, keep) as int) + "...[truncated]"@
    }
}

/// All the characters fit in a budget exactly when the text takes at most that
/// many bytes.
pub proof fn lemma_all_fit(s: Seq<char>, budget: int)
    requires
        budget >= 0,
    ensures
        fitting_chars(s, budget) == s.len() <==> utf8_len(s) <= budget,
    decreases s.len(),
{
    if s.len() > 0 && char_width(s[0]) <= budget {
        lemma_all_fit(s.drop_first(), budget - char_width(s[0]));
    }
}

/// The characters that fit in a budget take at most that many bytes.
pub proof fn lemma_fitting_within(s: Seq<char>, budget: int)
    ensures
        fitting_chars(s, budget) <= s.len(),
        budget >= 0 ==> utf8_len(s.take(fitting_chars(s, budget) as int)) <= budget,
    decreases s.len(),
{
    if s.len() > 0 && char_width(s[0]) <= budget {
        let rest = s.drop_first();
        lemma_fitting_within(rest, budget - char_width(s[0]));
        let k = fitting_chars(s, budget) as int;
        assert(s.take(k).drop_first() =~= rest.take(k - 1));
    } else {
        assert(s.take(0) =~= Seq::<char>::empty());
    }
}

/// The UTF-8 length of a concatenation.
pub proof fn lemma_utf8_len_concat(a: Seq<char>, b: Seq<char>)
    ensures
        utf8_len(a + b) == utf8_len(a) + utf8_len(b),
    decreases a.len(),
{
    if a.len() > 0 {
        lemma_utf8_len_concat(a.drop_first(), b);
        assert((a + b).drop_first() =~= a.drop_first() + b);
    } else {
        assert(a + b =~= b);
    }
}

/// A text of ASCII characters takes one byte per character.
proof fn lemma_ascii_len(s: Seq<char>)
    requires
        forall|i: int| 0 <= i < s.len() ==> (s[i] as u32) <= 0x7F,
    ensures
        utf8_len(s) == s.len(),
    decreases s.len(),
{
    if s.len() > 0 {
        lemma_ascii_len(s.drop_first());
    }
}

/// The UTF-8 width of a character, in bytes.
fn utf8_width(c: char) -> (w: usize)
    ensures
        w == char_width(c),
{
    let v = c as u32;
    if v <= 0x7F {
        1
    } else if v <= 0x7FF {
        2
    } else if v <= 0xFFFF {
        3
    } else {
        4
    }
}

/// How many characters of `chars` fit in `budget` bytes.
fn count_fitting(chars: &Vec<char>, budget: usize) -> (k: usize)
    ensures
        k == fitting_chars(chars@, budget as int),
{
    let mut i: usize = 0;
    let mut used: usize = 0;
    assert(chars@.subrange(0, chars@.len() as int) =~= chars@);
    while i < chars.len()
        invariant_except_break
            i <= chars@.len(),
            used <= budget,
            fitting_chars(chars@, budget as int) == i + fitting_chars(chars@.subrange(i as int, chars@.len() as int), budget - used),
        ensures
            fitting_chars(chars@, budget as int) == i,
        decreases chars@.len() - i,
    {
        let w = utf8_width(chars[i]);
        let ghost rest = chars@.subrange(i as int, chars@.len() as int);
        assert(rest[0] == chars@[i as int]);
        if w > budget - used {
            break;
        }
        assert(rest.drop_first() =~= chars@.subrange(i + 1, chars@.len() as int));
        used = used + w;
        i = i + 1;
    }
    proof {
        if i == chars.len() {
            assert(chars@.subrange(i as int, chars@.len() as int).len() == 0);
        }
    }
    i
}

/// Shortens a serialized JSON value for logging: a text longer than `max_bytes`
/// bytes is cut at a character boundary to at most `max_bytes - 15` bytes and
/// marked `...[truncated]`, so that with `max_bytes >= 15` the result never takes
/// more than `max_bytes` bytes.
pub fn truncate_json_text(serialized: &str, max_bytes: usize) -> (r: String)
    ensures
        r@ == spec_truncated(serialized@, max_bytes),
        max_bytes >= 15 ==> utf8_len(r@) <= max_bytes,
{
    let chars = str_to_chars(serialized);
    proof {
        lemma_all_fit(serialized@, max_bytes as int);
    }
    if count_fitting(&chars, max_bytes) == chars.len() {
        return serialized.to_owned();
    }
    let keep = max_bytes.saturating_sub(15);
    let end = count_fitting(&chars, keep);
    proof {
        lemma_fitting_within(serialized@, keep as int);
    }
    let head = slice_to_string(chars.as_slice(), 0, end);
    assert(head@ =~= serialized@.take(end as int));
    let r = concat_str(head.as_str(), "...[truncated]");
    proof {
        reveal_strlit("...[truncated]");
        lemma_ascii_len("...[truncated]"@);
        lemma_utf8_len_concat(head@, "...[truncated]"@);
    }
    r
}

// ---------------------------------------------------------------------------
// Checking a composition's input against its schema
// ---------------------------------------------------------------------------

/// How `{:?}` shows a string: quoted, with its special characters escaped.
pub uninterp spec fn debug_quoted(s: Seq<char>) -> Seq<char>;

/// Formats a string with `format!("{:?}", ..)`, that is `<str as Debug>::fmt`.
/// Claims only that the text is a function of the string.
#[verifier::external_body]
fn debug_str(s: &str) -> (r: String)
    ensures
        r@ == debug_quoted(s@),
{
    format!("{:?}", s)
}

/// The strings joined by `sep`.
pub open spec fn join_with(items: Seq<Seq<char>>, sep: Seq<char>) -> Seq<char>
    decreases items.len(),
{
    if items.len() == 0 {
        Seq::empty()
    } else if items.len() == 1 {
        items[0]
    } else {
        join_with(items.drop_last(), sep) + sep + items.last()
    }
}

/// How `{:?}` shows a list of strings: `["a", "b"]`.
pub open spec fn debug_list(items: Seq<Seq<char>>) -> Seq<char> {
    "["@ + join_with(items.map_values(|x: Seq<char>| debug_quoted(x)), ", "@) + "]"@
}

/// The strings among some JSON values, in order.
pub open spec fn strings_among(xs: Seq<JsonView>) -> Seq<Seq<char>>
    decreases xs.len(),
{
    if xs.len() == 0 {
        Seq::empty()
    } else {
        let rest = strings_among(xs.drop_last());
        match xs.last() {
            JsonView::String(x) => rest.push(x),
            _ => rest,
        }
    }
}

/// The required fields a schema names: the strings of its `required` array.
pub open spec fn required_fields(schema: Option<JsonView>) -> Seq<Seq<char>> {
    match schema {
        Some(v) => match spec_get(v, "required"@) {
            Some(JsonView::Array(xs)) => strings_among(xs),
            _ => Seq::empty(),
        },
        None => Seq::empty(),
    }
}

/// The fields among `fields` that an object input does not have, in order.
pub open spec fn missing_fields(fields: Seq<Seq<char>>, input: JsonView) -> Seq<Seq<char>>
    decreases fields.len(),
{
    if fields.len() == 0 {
        Seq::empty()
    } else {
        let rest = missing_fields(fields.drop_last(), input);
        if spec_get(input, fields.last()) is None {
            rest.push(fields.last())
        } else {
            rest
        }
    }
}

/// The verdict on a composition's input: `None` when it passes, else the message
/// of the `InvalidInput` error.
pub open spec fn input_verdict(schema: Option<JsonView>, input: JsonView, name: Seq<char>) -> Option<Seq<char>> {
    let req = required_fields(schema);
    if req.len() == 0 {
        None
    } else if !(input is Object) {
        Some("Composition '"@ + name + "' expects an object input with required fields: "@ + debug_list(req))
    } else {
        let missing = missing_fields(req, input);
        if missing.len() == 0 {
            None
        } else {
            Some(
                "Composition '"@ + name + "' is missing required input fields: "@ + debug_list(missing)
                    + ". Please provide: "@ + join_with(missing, ", "@),
            )
        }
    }
}

fn join_strings(items: &Vec<String>, sep: &str) -> (r: String)
    ensures
        r@ == join_with(strings_view(items@), sep@),
{
    let ghost iv = strings_view(items@);
    let mut out = String::new();
    let mut i: usize = 0;
    while i < items.len()
        invariant
            i <= items@.len(),
            iv == strings_view(items@),
            out@ == join_with(iv.take(i as int), sep@),
        decreases items@.len() - i,
    {
        assert(iv.take(i + 1).drop_last() =~= iv.take(i as int));
        if i == 0 {
            out = items[0].clone();
        } else {
            let with_sep = concat_str(out.as_str(), sep);
            out = concat_str(with_sep.as_str(), items[i].as_str());
        }
        i = i + 1;
    }
    assert(iv.take(items@.len() as int) =~= iv);
    out
}

fn debug_strings(items: &Vec<String>) -> (r: String)
    ensures
        r@ == debug_list(strings_view(items@)),
{
    let mut quoted: Vec<String> = Vec::new();
    let mut i: usize = 0;
    while i < items.len()
        invariant
            i <= items@.len(),
            strings_view(quoted@) == strings_view(items@).take(i as int).map_values(|x: Seq<char>| debug_quoted(x)),
        decreases items@.len() - i,
    {
        let ghost before = quoted@;
        let d = debug_str(items[i].as_str());
        quoted.push(d);
        assert(strings_view(quoted@) =~= strings_view(before).push(debug_quoted(items@[i as int]@)));
        assert(strings_view(items@).take(i + 1) =~= strings_view(items@).take(i as int).push(items@[i as int]@));
        assert(strings_view(quoted@) =~= strings_view(items@).take(i + 1).map_values(|x: Seq<char>| debug_quoted(x)));
        i = i + 1;
    }
    assert(strings_view(items@).take(items@.len() as int) =~= strings_view(items@));
    let inner = join_strings(&quoted, ", ");
    let open = concat_str("[", inner.as_str());
    concat_str(open.as_str(), "]")
}

/// Checks that an input has the fields a composition's input schema requires (the
/// strings of its `required` array). With required fields, an input that is not
/// an object, or that lacks some of them, is an `InvalidInput` error whose message
/// names the composition and the fields.
pub fn validate_input_schema(schema: &Option<JsonValue>, input: &JsonValue, composition_name: &str) -> (r: Result<
    (),
    ExecutionError,
>)
    ensures
        match input_verdict(
            match schema {
                Some(v) => Some(v@),
                None => None,
            },
            input@,
            composition_name@,
        ) {
            None => r is Ok,
            Some(m) => r matches Err(ExecutionError::InvalidInput(msg)) && msg@ == m,
        },
{
    let ghost sv = match schema {
        Some(v) => Some(v@),
        None => None::<JsonView>,
    };
    let mut required: Vec<String> = Vec::new();
    match schema {
        Some(v) => match v.get("required") {
            Some(JsonValue::Array(xs)) => {
                let ghost xv = items_view(xs@);
                let mut i: usize = 0;
                assert(xv.take(0) =~= Seq::<JsonView>::empty());
                assert(strings_view(required@) =~= Seq::<Seq<char>>::empty());
                while i < xs.len()
                    invariant
                        i <= xs@.len(),
                        xv == items_view(xs@),
                        strings_view(required@) == strings_among(xv.take(i as int)),
                    decreases xs@.len() - i,
                {
                    assert(xv.take(i + 1).drop_last() =~= xv.take(i as int));
                    assert(xv.take(i + 1).last() == xv[i as int]);
                    match &xs[i] {
                        JsonValue::String(x) => {
                            let ghost before = required@;
                            required.push(x.clone());
                            assert(strings_view(required@) =~= strings_view(before).push(x@));
                        },
                        _ => {},
                    }
                    i = i + 1;
                }
                assert(xv.take(xs@.len() as int) =~= xv);
            },
            _ => {
                assert(strings_view(required@) =~= Seq::<Seq<char>>::empty());
            },
        },
        None => {
            assert(strings_view(required@) =~= Seq::<Seq<char>>::empty());
        },
    }
    let ghost req = strings_view(required@);
    assert(req == required_fields(sv));
    if required.len() == 0 {
        return Ok(());
    }
    let is_object = match input {
        JsonValue::Object(_) => true,
        _ => false,
    };
    if !is_object {
        let m = concat_str("Composition '", composition_name);
        let m = concat_str(m.as_str(), "' expects an object input with required fields: ");
        let list = debug_strings(&required);
        return Err(ExecutionError::InvalidInput(concat_str(m.as_str(), list.as_str())));
    }
    let mut missing: Vec<String> = Vec::new();
    let mut i: usize = 0;
    assert(req.take(0) =~= Seq::<Seq<char>>::empty());
    assert(strings_view(missing@) =~= Seq::<Seq<char>>::empty());
    while i < required.len()
        invariant
            i <= required@.len(),
            req == strings_view(required@),
            strings_view(missing@) == missing_fields(req.take(i as int), input@),
        decreases required@.len() - i,
    {
        assert(req.take(i + 1).drop_last() =~= req.take(i as int));
        assert(req.take(i + 1).last() == req[i as int]);
        if input.get(required[i].as_str()).is_none() {
            let ghost before = missing@;
            missing.push(required[i].clone());
            assert(strings_view(missing@) =~= strings_view(before).push(req[i as int]));
        }
        i = i + 1;
    }
    assert(req.take(required@.len() as int) =~= req);
    if missing.len() == 0 {
        return Ok(());
    }
    let m = concat_str("Composition '", composition_name);
    let m = concat_str(m.as_str(), "' is missing required input fields: ");
    let list = debug_strings(&missing);
    let m = concat_str(m.as_str(), list.as_str());
    let m = concat_str(m.as_str(), ". Please provide: ");
    let joined = join_strings(&missing, ", ");
    Err(ExecutionError::InvalidInput(concat_str(m.as_str(), joined.as_str())))
}

} // verus!

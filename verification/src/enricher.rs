//! Enrichment of a request: the answers of several backends are gathered and
//! merged into the request's JSON body.
//!
//! The calls themselves are made by the caller; the library decides which answers
//! count and how they are merged.
use vstd::prelude::*;
use crate::json::{JsonValue, JsonView, members_view, find_key, spec_get, spec_insert, object_insert, position_of_key, group_json_view, law_get_after_insert};
use crate::text::{concat_str, dot_segments, lemma_dot_segments_nonempty, split_dots, strings_view};
use crate::jsonpath::from_serde;

verus! {

broadcast use group_json_view;

/// Errors of an enrichment.
#[derive(Debug, PartialEq, Eq)]
pub enum EnricherError {
    /// An enrichment source failed: its field and the reason.
    SourceFailed(String, String),
    /// The enrichment calls did not finish in time.
    Timeout,
    /// The answers could not be merged.
    MergeFailed(String),
    /// A backend reference does not resolve.
    InvalidBackend(String),
    /// The request body could not be read.
    BodyReadFailed(String),
    /// The request body is not JSON.
    JsonParseFailed(String),
}

/// The message of an enrichment error.
pub open spec fn spec_enricher_message(e: EnricherError) -> Seq<char> {
    match e {
        EnricherError::SourceFailed(f, m) => "enrichment source '"@ + f@ + "' failed: "@ + m@,
        EnricherError::Timeout => "timeout waiting for enrichment"@,
        EnricherError::MergeFailed(m) => "merge failed: "@ + m@,
        EnricherError::InvalidBackend(m) => "invalid backend reference: "@ + m@,
        EnricherError::BodyReadFailed(m) => "failed to read request body: "@ + m@,
        EnricherError::JsonParseFailed(m) => "failed to parse body as JSON: "@ + m@,
    }
}

impl EnricherError {
    /// A copy of this error.
    pub fn duplicate(&self) -> (r: EnricherError)
        ensures
            r == *self,
    {
        match self {
            EnricherError::SourceFailed(f, m) => EnricherError::SourceFailed(f.clone(), m.clone()),
            EnricherError::Timeout => EnricherError::Timeout,
            EnricherError::MergeFailed(m) => EnricherError::MergeFailed(m.clone()),
            EnricherError::InvalidBackend(m) => EnricherError::InvalidBackend(m.clone()),
            EnricherError::BodyReadFailed(m) => EnricherError::BodyReadFailed(m.clone()),
            EnricherError::JsonParseFailed(m) => EnricherError::JsonParseFailed(m.clone()),
        }
    }

    /// The error's message.
    pub fn message(&self) -> (r: String)
        ensures
            r@ == spec_enricher_message(*self),
    {
        match self {
            EnricherError::SourceFailed(f, m) => {
                let a = concat_str("enrichment source '", f.as_str());
                let b = concat_str(a.as_str(), "' failed: ");
                concat_str(b.as_str(), m.as_str())
            },
            EnricherError::Timeout => "timeout waiting for enrichment".to_owned(),
            EnricherError::MergeFailed(m) => concat_str("merge failed: ", m.as_str()),
            EnricherError::InvalidBackend(m) => concat_str("invalid backend reference: ", m.as_str()),
            EnricherError::BodyReadFailed(m) => concat_str("failed to read request body: ", m.as_str()),
            EnricherError::JsonParseFailed(m) => concat_str("failed to parse body as JSON: ", m.as_str()),
        }
    }
}

/// Mapping of enrichment results to request fields: each target field takes the
/// value at a dotted source path (`<enrichment field>.<key>.<key>...`).
#[derive(Debug, Clone, PartialEq, Eq)]
pub struct SchemaMapSpec {
    /// (target field, source path) pairs, in order.
    pub mappings: Vec<(String, String)>,
}

/// Strategy for merging enrichment results into the original request data.
#[derive(Debug, Clone, PartialEq, Eq)]
pub enum MergeStrategy {
    /// Spread all enrichment fields directly into the root object
    Spread,
    /// Put all enrichment results under a nested key
    Nested {
        /// The key under which to nest all enrichment results
        key: String,
    },
    /// Map enrichment results according to a schema
    SchemaMap(SchemaMapSpec),
}

// ---------------------------------------------------------------------------
// Gathering the answers
// ---------------------------------------------------------------------------

/// The answers gathered so far: each successful answer is stored under its field,
/// a later answer for the same field replacing an earlier one. A failure ends the
/// gathering with that failure, unless failures are ignored.
pub open spec fn spec_collect(
    results: Seq<Result<(String, JsonValue), EnricherError>>,
    ignore_failures: bool,
) -> Result<Seq<(Seq<char>, JsonView)>, EnricherError>
    decreases results.len(),
{
    if results.len() == 0 {
        Ok(Seq::empty())
    } else {
        match spec_collect(results.drop_last(), ignore_failures) {
            Err(e) => Err(e),
            Ok(acc) => match results.last() {
                Ok(kv) => Ok(spec_insert(acc, kv.0@, kv.1@)),
                Err(e) => if ignore_failures {
                    Ok(acc)
                } else {
                    Err(e)
                },
            },
        }
    }
}

/// What `serde_json::from_slice` reads from bytes: the value, or the error's text.
pub uninterp spec fn parsed_json_bytes(bytes: Seq<u8>) -> Result<JsonView, Seq<char>>;

/// Calls `serde_json::from_slice` for a `serde_json::Value`. Claims that the
/// value read, or the error's text, is a function of the bytes.
#[verifier::external_body]
fn json_from_bytes(bytes: &[u8]) -> (r: Result<JsonValue, String>)
    ensures
        match parsed_json_bytes(bytes@) {
            Ok(v) => r matches Ok(x) && x@ == v,
            Err(m) => r matches Err(e) && e@ == m,
        },
{
    serde_json::from_slice::<serde_json::Value>(bytes).map(|v| from_serde(&v)).map_err(|e| e.to_string())
}

/// The text `http` gives a status code (`<StatusCode as Display>`).
pub uninterp spec fn status_text(code: u16) -> Seq<char>;

/// Formats an HTTP status code with `http::StatusCode`'s `Display`, which
/// `StatusCode::from_u16` accepts for codes from 100 to 999. Claims that the
/// text is a function of the code.
#[verifier::external_body]
fn status_display(code: u16) -> (r: String)
    requires
        100 <= code <= 999,
    ensures
        r@ == status_text(code),
{
    http::StatusCode::from_u16(code).map(|s| s.to_string()).unwrap_or_default()
}

/// The request body the enrichment starts from: an empty body stands for an
/// empty object; otherwise the body must be JSON.
pub fn original_body(bytes: &Vec<u8>) -> (r: Result<JsonValue, EnricherError>)
    ensures
        bytes@.len() == 0 ==> (r matches Ok(v) && v@ == JsonView::Object(Seq::empty())),
        bytes@.len() > 0 ==> match parsed_json_bytes(bytes@) {
            Ok(v) => r matches Ok(x) && x@ == v,
            Err(m) => r matches Err(EnricherError::JsonParseFailed(e)) && e@ == m,
        },
{
    if bytes.len() == 0 {
        let members: Vec<(String, JsonValue)> = Vec::new();
        assert(members_view(members@) =~= Seq::<(Seq<char>, JsonView)>::empty());
        return Ok(JsonValue::Object(members));
    }
    match json_from_bytes(bytes.as_slice()) {
        Ok(v) => Ok(v),
        Err(e) => Err(EnricherError::JsonParseFailed(e)),
    }
}

/// What an enrichment backend's answer gives for its field: a status outside
/// 200-299 fails the source with `backend returned status <status>`; otherwise
/// the body must be JSON, its error's text failing the source.
pub fn enrichment_answer(field: &String, status: u16, body: &Vec<u8>) -> (r: Result<(String, JsonValue), EnricherError>)
    requires
        100 <= status <= 999,
    ensures
        !(200 <= status <= 299) ==> (r matches Err(EnricherError::SourceFailed(f, m)) && f@ == field@ && m@
            == "backend returned status "@ + status_text(status)),
        200 <= status <= 299 ==> match parsed_json_bytes(body@) {
            Ok(v) => r matches Ok(p) && p.0@ == field@ && p.1@ == v,
            Err(m) => r matches Err(EnricherError::SourceFailed(f, e)) && f@ == field@ && e@ == m,
        },
{
    if !(200 <= status && status <= 299) {
        let t = status_display(status);
        return Err(EnricherError::SourceFailed(field.clone(), concat_str("backend returned status ", t.as_str())));
    }
    match json_from_bytes(body.as_slice()) {
        Ok(v) => Ok((field.clone(), v)),
        Err(e) => Err(EnricherError::SourceFailed(field.clone(), e)),
    }
}

/// Gathers the answers of the enrichment sources, in the order of the sources.
/// With `ignore_failures` a failed source is left out; otherwise the first failure
/// is the result.
pub fn collect_enrichments(
    results: &Vec<Result<(String, JsonValue), EnricherError>>,
    ignore_failures: bool,
) -> (r: Result<Vec<(String, JsonValue)>, EnricherError>)
    ensures
        match spec_collect(results@, ignore_failures) {
            Ok(ms) => r matches Ok(out) && members_view(out@) == ms,
            Err(e) => r == Err::<Vec<(String, JsonValue)>, EnricherError>(e),
        },
{
    let mut out: Vec<(String, JsonValue)> = Vec::new();
    let mut i: usize = 0;
    assert(results@.take(0) =~= Seq::<Result<(String, JsonValue), EnricherError>>::empty());
    assert(members_view(out@) =~= Seq::<(Seq<char>, JsonView)>::empty());
    while i < results.len()
        invariant
            i <= results@.len(),
            spec_collect(results@.take(i as int), ignore_failures) == Ok::<
                Seq<(Seq<char>, JsonView)>,
                EnricherError,
            >(members_view(out@)),
        decreases results@.len() - i,
    {
        assert(results@.take(i + 1).drop_last() =~= results@.take(i as int));
        assert(results@.take(i + 1).last() == results@[i as int]);
        match &results[i] {
            Ok(kv) => {
                object_insert(&mut out, kv.0.clone(), kv.1.duplicate());
            },
            Err(e) => {
                if !ignore_failures {
                    proof {
                        lemma_collect_err_stays(results@, i as int + 1, ignore_failures);
                    }
                    return Err(e.duplicate());
                }
            },
        }
        i = i + 1;
    }
    assert(results@.take(results@.len() as int) =~= results@);
    Ok(out)
}

/// Once gathering has failed, it stays failed with the same error.
proof fn lemma_collect_err_stays(
    results: Seq<Result<(String, JsonValue), EnricherError>>,
    k: int,
    ignore_failures: bool,
)
    requires
        0 <= k <= results.len(),
        spec_collect(results.take(k), ignore_failures) is Err,
    ensures
        spec_collect(results, ignore_failures) == spec_collect(results.take(k), ignore_failures),
    decreases results.len() - k,
{
    if k < results.len() {
        assert(results.take(k + 1).drop_last() =~= results.take(k));
        lemma_collect_err_stays(results, k + 1, ignore_failures);
    } else {
        assert(results.take(k) =~= results);
    }
}

// ---------------------------------------------------------------------------
// Merging
// ---------------------------------------------------------------------------

/// Follows object keys from `v`; `None` at the first key that is missing.
pub open spec fn follow(v: JsonView, keys: Seq<Seq<char>>) -> Option<JsonView>
    decreases keys.len(),
{
    if keys.len() == 0 {
        Some(v)
    } else {
        match spec_get(v, keys[0]) {
            Some(c) => follow(c, keys.drop_first()),
            None => None,
        }
    }
}

/// The value at a dotted path among the gathered answers: the first segment names
/// the enrichment field, the others are keys inside its answer.
pub open spec fn spec_nested_value(enrichments: Seq<(Seq<char>, JsonView)>, path: Seq<char>) -> Option<JsonView> {
    let parts = dot_segments(path);
    match find_key(enrichments, parts[0]) {
        Some(i) => follow(enrichments[i].1, parts.drop_first()),
        None => None,
    }
}

fn follow_keys<'a>(v: &'a JsonValue, keys: &Vec<String>, from: usize) -> (r: Option<&'a JsonValue>)
    requires
        from <= keys@.len(),
    ensures
        match follow(v@, strings_view(keys@).skip(from as int)) {
            Some(x) => r matches Some(y) && y@ == x,
            None => r is None,
        },
    decreases keys@.len() - from,
{
    let ghost ks = strings_view(keys@).skip(from as int);
    if from == keys.len() {
        return Some(v);
    }
    assert(ks[0] == keys@[from as int]@);
    assert(ks.drop_first() =~= strings_view(keys@).skip(from + 1));
    match v.get(keys[from].as_str()) {
        Some(c) => follow_keys(c, keys, from + 1),
        None => None,
    }
}

/// The value at a dotted path (such as `user.name`) among the gathered answers.
pub fn get_nested_value<'a>(enrichments: &'a Vec<(String, JsonValue)>, path: &str) -> (r: Option<&'a JsonValue>)
    ensures
        match spec_nested_value(members_view(enrichments@), path@) {
            Some(x) => r matches Some(y) && y@ == x,
            None => r is None,
        },
{
    let parts = split_dots(path);
    let ghost ps = strings_view(parts@);
    proof {
        lemma_dot_segments_nonempty(path@);
        assert(ps[0] == parts@[0]@);
        assert(ps.skip(1) =~= ps.drop_first());
    }
    match position_of_key(enrichments, parts[0].as_str()) {
        Some(i) => {
            assert(members_view(enrichments@)[i as int].1 == enrichments@[i as int].1@);
            follow_keys(&enrichments[i].1, &parts, 1)
        },
        None => None,
    }
}

/// `members` with each of `kvs` inserted in turn.
pub open spec fn insert_all(
    members: Seq<(Seq<char>, JsonView)>,
    kvs: Seq<(Seq<char>, JsonView)>,
) -> Seq<(Seq<char>, JsonView)>
    decreases kvs.len(),
{
    if kvs.len() == 0 {
        members
    } else {
        spec_insert(insert_all(members, kvs.drop_last()), kvs.last().0, kvs.last().1)
    }
}

/// `members` with each target field of `mappings` set to the value at its source
/// path, where that path names a value.
pub open spec fn apply_mappings(
    members: Seq<(Seq<char>, JsonView)>,
    mappings: Seq<(Seq<char>, Seq<char>)>,
    enrichments: Seq<(Seq<char>, JsonView)>,
) -> Seq<(Seq<char>, JsonView)>
    decreases mappings.len(),
{
    if mappings.len() == 0 {
        members
    } else {
        let acc = apply_mappings(members, mappings.drop_last(), enrichments);
        match spec_nested_value(enrichments, mappings.last().1) {
            Some(v) => spec_insert(acc, mappings.last().0, v),
            None => acc,
        }
    }
}

/// The members of a merged body whose original is not an object: the original
/// under `_original`.
pub open spec fn wrapped(original: JsonView) -> Seq<(Seq<char>, JsonView)> {
    seq![("_original"@, original)]
}

/// The merged body; `None` when the strategy is a schema map and the original
/// body is not an object.
pub open spec fn spec_merge(
    merge: MergeStrategy,
    original: JsonView,
    enrichments: Seq<(Seq<char>, JsonView)>,
) -> Option<JsonView> {
    match merge {
        MergeStrategy::Spread => match original {
            JsonView::Object(ms) => Some(JsonView::Object(insert_all(ms, enrichments))),
            _ => Some(JsonView::Object(insert_all(wrapped(original), enrichments))),
        },
        MergeStrategy::Nested { key } => match original {
            JsonView::Object(ms) => Some(JsonView::Object(spec_insert(ms, key@, JsonView::Object(enrichments)))),
            _ => Some(JsonView::Object(spec_insert(wrapped(original), key@, JsonView::Object(enrichments)))),
        },
        MergeStrategy::SchemaMap(schema) => match original {
            JsonView::Object(ms) => Some(JsonView::Object(apply_mappings(ms, mappings_view(schema.mappings@), enrichments))),
            _ => None,
        },
    }
}

/// The (target, source path) pairs of a schema map by their characters.
pub open spec fn mappings_view(m: Seq<(String, String)>) -> Seq<(Seq<char>, Seq<char>)> {
    m.map_values(|p: (String, String)| (p.0@, p.1@))
}

/// Inserts each of `kvs` in turn.
fn insert_each(members: &mut Vec<(String, JsonValue)>, kvs: &Vec<(String, JsonValue)>)
    ensures
        members_view(final(members)@) == insert_all(members_view(old(members)@), members_view(kvs@)),
{
    let ghost m0 = members_view(members@);
    let ghost kv = members_view(kvs@);
    let mut i: usize = 0;
    while i < kvs.len()
        invariant
            i <= kvs@.len(),
            kv == members_view(kvs@),
            members_view(members@) == insert_all(m0, kv.take(i as int)),
        decreases kvs@.len() - i,
    {
        assert(kv.take(i + 1).drop_last() =~= kv.take(i as int));
        assert(kv.take(i + 1).last() == kv[i as int]);
        object_insert(members, kvs[i].0.clone(), kvs[i].1.duplicate());
        i = i + 1;
    }
    assert(kv.take(kvs@.len() as int) =~= kv);
}

/// The members a spread or nested merge starts from: those of the original body
/// when it is an object, else the original under `_original`.
fn base_members(original: JsonValue) -> (r: Vec<(String, JsonValue)>)
    ensures
        members_view(r@) == match original@ {
            JsonView::Object(ms) => ms,
            _ => wrapped(original@),
        },
{
    match original {
        JsonValue::Object(ms) => ms,
        other => {
            let ghost ov = other@;
            let r = vec![("_original".to_owned(), other)];
            assert(members_view(r@) =~= wrapped(ov));
            r
        },
    }
}

/// Merges the gathered answers into the original body: `Spread` stores each answer
/// under its field at the top level, `Nested` stores them all as one object under
/// its key, `SchemaMap` sets each target field to the value at its source path. A
/// body that is not an object is first wrapped under `_original`, except for a
/// schema map, which then fails.
pub fn merge_results(merge: &MergeStrategy, original: JsonValue, enrichments: Vec<(String, JsonValue)>) -> (r: Result<
    JsonValue,
    EnricherError,
>)
    ensures
        match spec_merge(*merge, original@, members_view(enrichments@)) {
            Some(v) => r matches Ok(x) && x@ == v,
            None => r matches Err(EnricherError::MergeFailed(m)) && m@
                == "SchemaMap merge requires original body to be a JSON object"@,
        },
{
    let ghost ev = members_view(enrichments@);
    match merge {
        MergeStrategy::Spread => {
            let mut members = base_members(original);
            insert_each(&mut members, &enrichments);
            Ok(JsonValue::Object(members))
        },
        MergeStrategy::Nested { key } => {
            let mut members = base_members(original);
            object_insert(&mut members, key.clone(), JsonValue::Object(enrichments));
            Ok(JsonValue::Object(members))
        },
        MergeStrategy::SchemaMap(schema) => match original {
            JsonValue::Object(ms) => {
                let mut members = ms;
                let ghost m0 = members_view(members@);
                let ghost mv = mappings_view(schema.mappings@);
                let mut i: usize = 0;
                while i < schema.mappings.len()
                    invariant
                        i <= schema.mappings@.len(),
                        mv == mappings_view(schema.mappings@),
                        ev == members_view(enrichments@),
                        members_view(members@) == apply_mappings(m0, mv.take(i as int), ev),
                    decreases schema.mappings@.len() - i,
                {
                    assert(mv.take(i + 1).drop_last() =~= mv.take(i as int));
                    assert(mv.take(i + 1).last() == mv[i as int]);
                    match get_nested_value(&enrichments, schema.mappings[i].1.as_str()) {
                        Some(v) => {
                            object_insert(&mut members, schema.mappings[i].0.clone(), v.duplicate());
                        },
                        None => {},
                    }
                    i = i + 1;
                }
                assert(mv.take(schema.mappings@.len() as int) =~= mv);
                Ok(JsonValue::Object(members))
            },
            _ => Err(EnricherError::MergeFailed("SchemaMap merge requires original body to be a JSON object".to_owned())),
        },
    }
}

/// The value of the last of `kvs` whose key is `key`.
pub open spec fn last_value(kvs: Seq<(Seq<char>, JsonView)>, key: Seq<char>) -> Option<JsonView>
    decreases kvs.len(),
{
    if kvs.len() == 0 {
        None
    } else if kvs.last().0 == key {
        Some(kvs.last().1)
    } else {
        last_value(kvs.drop_last(), key)
    }
}

proof fn lemma_get_insert_all(ms: Seq<(Seq<char>, JsonView)>, kvs: Seq<(Seq<char>, JsonView)>, key: Seq<char>)
    ensures
        spec_get(JsonView::Object(insert_all(ms, kvs)), key) == match last_value(kvs, key) {
            Some(v) => Some(v),
            None => spec_get(JsonView::Object(ms), key),
        },
    decreases kvs.len(),
{
    if kvs.len() > 0 {
        lemma_get_insert_all(ms, kvs.drop_last(), key);
        law_get_after_insert(insert_all(ms, kvs.drop_last()), kvs.last().0, kvs.last().1, key);
    }
}

/// Merging into an object body: under `Spread` every field of the body reads, after
/// the merge, as the last answer gathered for it, or as before when no answer has
/// that field; under `Nested` the nesting key reads as the object of all answers.
pub proof fn law_merge_into_object(
    ms: Seq<(Seq<char>, JsonView)>,
    enrichments: Seq<(Seq<char>, JsonView)>,
    nest_key: String,
    field: Seq<char>,
)
    ensures
        spec_merge(MergeStrategy::Spread, JsonView::Object(ms), enrichments) matches Some(v) && spec_get(v, field)
            == match last_value(enrichments, field) {
            Some(x) => Some(x),
            None => spec_get(JsonView::Object(ms), field),
        },
        spec_merge(MergeStrategy::Nested { key: nest_key }, JsonView::Object(ms), enrichments) matches Some(v)
            && spec_get(v, nest_key@) == Some(JsonView::Object(enrichments)),
{
    lemma_get_insert_all(ms, enrichments, field);
    law_get_after_insert(ms, nest_key@, JsonView::Object(enrichments), field);
}

/// A body that is not an object keeps its value under `_original` in a spread
/// merge, unless an answer has that very field; a schema-map merge refuses it.
pub proof fn law_merge_non_object(original: JsonView, enrichments: Seq<(Seq<char>, JsonView)>, schema: SchemaMapSpec)
    requires
        !(original is Object),
        last_value(enrichments, "_original"@) is None,
    ensures
        spec_merge(MergeStrategy::Spread, original, enrichments) matches Some(v) && spec_get(v, "_original"@)
            == Some(original),
        spec_merge(MergeStrategy::SchemaMap(schema), original, enrichments) is None,
{
    lemma_get_insert_all(wrapped(original), enrichments, "_original"@);
    law_get_after_insert(Seq::empty(), "_original"@, original, "_original"@);
    assert(Seq::<(Seq<char>, JsonView)>::empty().push(("_original"@, original)) =~= wrapped(original));
}

} // verus!

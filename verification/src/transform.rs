//! Applying an output transform: each field of a tool's answer is taken from a
//! source in the backend's answer (JSONPath queries, literals, combinations), and
//! item fields (`base[*].item`) are mapped onto the elements of their array.
use vstd::prelude::*;
use crate::json::{JsonValue, JsonView, items_view, members_view, group_json_view};
use crate::jsonpath::{jsonpath_check, jsonpath_parse_error, jsonpath_nodes, jsonpath_query, first_node, query_first};
use crate::output_transform::{
    base_indices, items_of, orphan_arrays, spec_item_object, spec_output, item_fields_view, group_mappings,
    item_object, assemble_output,
};
use crate::pipeline::{PipelineExecutor, spec_query_value};
use crate::registry_error::RegistryError;
use crate::schema_map::{SchemaMapExecutor, spec_coalesce, spec_join, spec_fill};
use crate::text::strings_view;

verus! {

broadcast use group_json_view;

/// Where a field of the transformed answer comes from.
#[derive(Debug)]
pub enum FieldSource {
    /// The nodes a JSONPath selects
    Path(String),
    /// A fixed value
    Literal(JsonValue),
    /// The first node, not null, that one of the paths selects
    Coalesce(Vec<String>),
    /// A template whose `{name}` placeholders take the strings the paths select
    Template { template: String, vars: Vec<(String, String)> },
    /// The strings the paths select, joined by the separator
    Concat { paths: Vec<String>, separator: String },
    /// A nested transform
    Nested(Vec<(String, FieldSource)>),
}

/// The field names of a transform.
pub open spec fn names_of(ms: Seq<(String, FieldSource)>) -> Seq<Seq<char>> {
    ms.map_values(|m: (String, FieldSource)| m.0@)
}

/// The parse error of a path, with the path.
pub open spec fn path_error(p: Seq<char>) -> Option<(Seq<char>, Seq<char>)> {
    match jsonpath_parse_error(p) {
        Some(m) => Some((p, m)),
        None => None,
    }
}

/// The first path of a list that is not a JSONPath, with its parse error.
pub open spec fn paths_error(ps: Seq<String>) -> Option<(Seq<char>, Seq<char>)>
    decreases ps.len(),
{
    if ps.len() == 0 {
        None
    } else {
        match paths_error(ps.drop_last()) {
            Some(e) => Some(e),
            None => path_error(ps.last()@),
        }
    }
}

/// The first variable path of a template that is not a JSONPath.
pub open spec fn vars_error(vs: Seq<(String, String)>) -> Option<(Seq<char>, Seq<char>)>
    decreases vs.len(),
{
    if vs.len() == 0 {
        None
    } else {
        match vars_error(vs.drop_last()) {
            Some(e) => Some(e),
            None => path_error(vs.last().1@),
        }
    }
}

/// The first path of a source, in order, that is not a JSONPath.
pub open spec fn source_error(src: FieldSource) -> Option<(Seq<char>, Seq<char>)>
    decreases src,
{
    match src {
        FieldSource::Path(p) => path_error(p@),
        FieldSource::Literal(_) => None,
        FieldSource::Coalesce(ps) => paths_error(ps@),
        FieldSource::Template { vars, .. } => vars_error(vars@),
        FieldSource::Concat { paths, .. } => paths_error(paths@),
        FieldSource::Nested(ms) => mappings_error(ms@),
    }
}

/// The first path of a transform's sources, in order, that is not a JSONPath.
pub open spec fn mappings_error(ms: Seq<(String, FieldSource)>) -> Option<(Seq<char>, Seq<char>)>
    decreases ms,
{
    if ms.len() == 0 {
        None
    } else {
        match mappings_error(ms.drop_last()) {
            Some(e) => Some(e),
            None => source_error(ms.last().1),
        }
    }
}

/// The first node of a path, or null.
pub open spec fn first_or_null(p: Seq<char>, v: JsonView) -> JsonView {
    match first_node(p, v) {
        Some(n) => n,
        None => JsonView::Null,
    }
}

/// The first node of a path when it is a string.
pub open spec fn first_string(p: Seq<char>, v: JsonView) -> Option<Seq<char>> {
    match first_node(p, v) {
        Some(JsonView::String(s)) => Some(s),
        _ => None,
    }
}

/// The first node, or null, of each path.
pub open spec fn firsts(ps: Seq<String>, v: JsonView) -> Seq<JsonView>
    decreases ps.len(),
{
    if ps.len() == 0 {
        Seq::empty()
    } else {
        firsts(ps.drop_last(), v).push(first_or_null(ps.last()@, v))
    }
}

/// The first node of each path, when a string.
pub open spec fn first_strings(ps: Seq<String>, v: JsonView) -> Seq<Option<Seq<char>>>
    decreases ps.len(),
{
    if ps.len() == 0 {
        Seq::empty()
    } else {
        first_strings(ps.drop_last(), v).push(first_string(ps.last()@, v))
    }
}

/// Each template variable with the string its path selects (empty when none).
pub open spec fn var_values(vs: Seq<(String, String)>, v: JsonView) -> Seq<(Seq<char>, Seq<char>)>
    decreases vs.len(),
{
    if vs.len() == 0 {
        Seq::empty()
    } else {
        var_values(vs.drop_last(), v).push(
            (
                vs.last().0@,
                match first_string(vs.last().1@, v) {
                    Some(s) => s,
                    None => Seq::empty(),
                },
            ),
        )
    }
}

/// The value of a source in an answer (its paths being JSONPaths).
pub open spec fn spec_extract(src: FieldSource, v: JsonView) -> JsonView
    decreases src, 0int, 0int,
{
    match src {
        FieldSource::Path(p) => spec_query_value(jsonpath_nodes(p@, v)),
        FieldSource::Literal(x) => x@,
        FieldSource::Coalesce(ps) => spec_coalesce(firsts(ps@, v)),
        FieldSource::Template { template, vars } => JsonView::String(spec_fill(template@, var_values(vars@, v))),
        FieldSource::Concat { paths, separator } => JsonView::String(spec_join(first_strings(paths@, v), separator@)),
        FieldSource::Nested(ms) => JsonView::Object(spec_transform(ms@, v)),
    }
}

/// The transformed answer: each plain field with its value, in order (an array
/// value with item fields becomes the array of their objects), then each array
/// field that only item fields name, as `null`.
pub open spec fn spec_transform(ms: Seq<(String, FieldSource)>, v: JsonView) -> Seq<(Seq<char>, JsonView)>
    decreases ms, 5int, 0int,
{
    spec_output(spec_fields(ms, base_indices(names_of(ms)), v), orphan_arrays(names_of(ms), names_of(ms)))
}

/// The plain fields at the indices `bases`, with their values.
pub open spec fn spec_fields(ms: Seq<(String, FieldSource)>, bases: Seq<int>, v: JsonView) -> Seq<(Seq<char>, JsonView)>
    decreases ms, 4int, bases.len(),
{
    if bases.len() == 0 {
        Seq::empty()
    } else {
        let b = bases.last();
        spec_fields(ms, bases.drop_last(), v).push(
            if 0 <= b < ms.len() {
                (ms[b].0@, spec_shaped(ms, b, v))
            } else {
                (Seq::empty(), JsonView::Null)
            },
        )
    }
}

/// The value of the plain field at index `b`: with item fields, an array value
/// becomes the array of the objects of its elements.
pub open spec fn spec_shaped(ms: Seq<(String, FieldSource)>, b: int, v: JsonView) -> JsonView
    decreases ms, 3int, 0int,
{
    if 0 <= b < ms.len() {
        let x = spec_extract(ms[b].1, v);
        let its = items_of(names_of(ms), ms[b].0@);
        match x {
            JsonView::Array(xs) => if its.len() > 0 {
                JsonView::Array(spec_item_objects(ms, its, xs))
            } else {
                x
            },
            _ => x,
        }
    } else {
        JsonView::Null
    }
}

/// The objects of the elements `xs`, with the item fields `its`.
pub open spec fn spec_item_objects(ms: Seq<(String, FieldSource)>, its: Seq<(Seq<char>, int)>, xs: Seq<JsonView>) -> Seq<
    JsonView,
>
    decreases ms, 2int, xs.len(),
{
    if xs.len() == 0 {
        Seq::empty()
    } else {
        spec_item_objects(ms, its, xs.drop_last()).push(
            JsonView::Object(
                spec_item_object(its.map_values(|f: (Seq<char>, int)| f.0), spec_item_values(ms, its, xs.last())),
            ),
        )
    }
}

/// The values of the item fields `its` in the element `x`.
pub open spec fn spec_item_values(ms: Seq<(String, FieldSource)>, its: Seq<(Seq<char>, int)>, x: JsonView) -> Seq<JsonView>
    decreases ms, 1int, its.len(),
{
    if its.len() == 0 {
        Seq::empty()
    } else {
        let j = its.last().1;
        spec_item_values(ms, its.drop_last(), x).push(
            if 0 <= j < ms.len() {
                spec_extract(ms[j].1, x)
            } else {
                JsonView::Null
            },
        )
    }
}

/// The plain field indices lie among the names.
proof fn lemma_base_indices_range(names: Seq<Seq<char>>)
    ensures
        forall|k: int| 0 <= k < base_indices(names).len() ==> 0 <= #[trigger] base_indices(names)[k] < names.len(),
    decreases names.len(),
{
    if names.len() > 0 {
        lemma_base_indices_range(names.drop_last());
        let rest = base_indices(names.drop_last());
        assert forall|k: int| 0 <= k < base_indices(names).len() implies 0 <= #[trigger] base_indices(names)[k] < names.len() by {
            if k < rest.len() {
                assert(base_indices(names)[k] == rest[k]);
            }
        }
    }
}

/// The item field indices lie among the names.
proof fn lemma_items_range(names: Seq<Seq<char>>, base: Seq<char>)
    ensures
        forall|k: int| 0 <= k < items_of(names, base).len() ==> 0 <= (#[trigger] items_of(names, base)[k]).1 < names.len(),
    decreases names.len(),
{
    if names.len() > 0 {
        lemma_items_range(names.drop_last(), base);
        let rest = items_of(names.drop_last(), base);
        assert forall|k: int| 0 <= k < items_of(names, base).len() implies 0 <= (#[trigger] items_of(names, base)[k]).1 < names.len() by {
            if k < rest.len() {
                assert(items_of(names, base)[k] == rest[k]);
            }
        }
    }
}

/// Without a bad path in a list, every path of it parses.
proof fn lemma_paths_ok(ps: Seq<String>)
    requires
        paths_error(ps) is None,
    ensures
        forall|i: int| 0 <= i < ps.len() ==> jsonpath_parse_error((#[trigger] ps[i])@) is None,
    decreases ps.len(),
{
    if ps.len() > 0 {
        lemma_paths_ok(ps.drop_last());
        assert forall|i: int| 0 <= i < ps.len() implies jsonpath_parse_error((#[trigger] ps[i])@) is None by {
            if i < ps.len() - 1 {
                assert(ps.drop_last()[i] == ps[i]);
            }
        }
    }
}

/// Without a bad path among the variables, every variable path parses.
proof fn lemma_vars_ok(vs: Seq<(String, String)>)
    requires
        vars_error(vs) is None,
    ensures
        forall|i: int| 0 <= i < vs.len() ==> jsonpath_parse_error((#[trigger] vs[i]).1@) is None,
    decreases vs.len(),
{
    if vs.len() > 0 {
        lemma_vars_ok(vs.drop_last());
        assert forall|i: int| 0 <= i < vs.len() implies jsonpath_parse_error((#[trigger] vs[i]).1@) is None by {
            if i < vs.len() - 1 {
                assert(vs.drop_last()[i] == vs[i]);
            }
        }
    }
}

/// Without a bad path in a transform, no source of it has one.
proof fn lemma_mappings_ok(ms: Seq<(String, FieldSource)>)
    requires
        mappings_error(ms) is None,
    ensures
        forall|j: int| 0 <= j < ms.len() ==> source_error((#[trigger] ms[j]).1) is None,
    decreases ms.len(),
{
    if ms.len() > 0 {
        lemma_mappings_ok(ms.drop_last());
        assert forall|j: int| 0 <= j < ms.len() implies source_error((#[trigger] ms[j]).1) is None by {
            if j < ms.len() - 1 {
                assert(ms.drop_last()[j] == ms[j]);
            }
        }
    }
}

/// The first bad path of a list, with its parse error.
fn check_paths(ps: &Vec<String>) -> (r: Option<(String, String)>)
    ensures
        match paths_error(ps@) {
            Some((p, m)) => r matches Some((a, b)) && a@ == p && b@ == m,
            None => r is None,
        },
{
    let mut i: usize = 0;
    assert(ps@.take(0) =~= Seq::<String>::empty());
    while i < ps.len()
        invariant
            i <= ps@.len(),
            paths_error(ps@.take(i as int)) is None,
        decreases ps@.len() - i,
    {
        assert(ps@.take(i + 1).drop_last() =~= ps@.take(i as int));
        match jsonpath_check(ps[i].as_str()) {
            Some(m) => {
                proof {
                    lemma_paths_error_stays(ps@, i as int + 1);
                }
                return Some((ps[i].clone(), m));
            },
            None => {},
        }
        i = i + 1;
    }
    assert(ps@.take(ps@.len() as int) =~= ps@);
    None
}

proof fn lemma_paths_error_stays(ps: Seq<String>, k: int)
    requires
        0 < k <= ps.len(),
        paths_error(ps.take(k)) is Some,
    ensures
        paths_error(ps) == paths_error(ps.take(k)),
    decreases ps.len() - k,
{
    if k < ps.len() {
        assert(ps.take(k + 1).drop_last() =~= ps.take(k));
        lemma_paths_error_stays(ps, k + 1);
    } else {
        assert(ps.take(k) =~= ps);
    }
}

proof fn lemma_vars_error_stays(vs: Seq<(String, String)>, k: int)
    requires
        0 < k <= vs.len(),
        vars_error(vs.take(k)) is Some,
    ensures
        vars_error(vs) == vars_error(vs.take(k)),
    decreases vs.len() - k,
{
    if k < vs.len() {
        assert(vs.take(k + 1).drop_last() =~= vs.take(k));
        lemma_vars_error_stays(vs, k + 1);
    } else {
        assert(vs.take(k) =~= vs);
    }
}

proof fn lemma_mappings_error_stays(ms: Seq<(String, FieldSource)>, k: int)
    requires
        0 < k <= ms.len(),
        mappings_error(ms.take(k)) is Some,
    ensures
        mappings_error(ms) == mappings_error(ms.take(k)),
    decreases ms.len() - k,
{
    if k < ms.len() {
        assert(ms.take(k + 1).drop_last() =~= ms.take(k));
        lemma_mappings_error_stays(ms, k + 1);
    } else {
        assert(ms.take(k) =~= ms);
    }
}

/// The first bad variable path of a template, with its parse error.
fn check_vars(vs: &Vec<(String, String)>) -> (r: Option<(String, String)>)
    ensures
        match vars_error(vs@) {
            Some((p, m)) => r matches Some((a, b)) && a@ == p && b@ == m,
            None => r is None,
        },
{
    let mut i: usize = 0;
    assert(vs@.take(0) =~= Seq::<(String, String)>::empty());
    while i < vs.len()
        invariant
            i <= vs@.len(),
            vars_error(vs@.take(i as int)) is None,
        decreases vs@.len() - i,
    {
        assert(vs@.take(i + 1).drop_last() =~= vs@.take(i as int));
        match jsonpath_check(vs[i].1.as_str()) {
            Some(m) => {
                proof {
                    lemma_vars_error_stays(vs@, i as int + 1);
                }
                return Some((vs[i].1.clone(), m));
            },
            None => {},
        }
        i = i + 1;
    }
    assert(vs@.take(vs@.len() as int) =~= vs@);
    None
}

/// The first bad path of a source, with its parse error.
fn check_source(src: &FieldSource) -> (r: Option<(String, String)>)
    ensures
        match source_error(*src) {
            Some((p, m)) => r matches Some((a, b)) && a@ == p && b@ == m,
            None => r is None,
        },
    decreases src,
{
    match src {
        FieldSource::Path(p) => match jsonpath_check(p.as_str()) {
            Some(m) => Some((p.clone(), m)),
            None => None,
        },
        FieldSource::Literal(_) => None,
        FieldSource::Coalesce(ps) => check_paths(ps),
        FieldSource::Template { vars, .. } => check_vars(vars),
        FieldSource::Concat { paths, .. } => check_paths(paths),
        FieldSource::Nested(ms) => {
            assert(decreases_to!(*src => *ms));
            check_mappings(ms)
        },
    }
}

/// The first bad path of a transform's sources, with its parse error.
fn check_mappings(ms: &Vec<(String, FieldSource)>) -> (r: Option<(String, String)>)
    ensures
        match mappings_error(ms@) {
            Some((p, m)) => r matches Some((a, b)) && a@ == p && b@ == m,
            None => r is None,
        },
    decreases ms,
{
    let mut i: usize = 0;
    assert(ms@.take(0) =~= Seq::<(String, FieldSource)>::empty());
    while i < ms.len()
        invariant
            i <= ms@.len(),
            mappings_error(ms@.take(i as int)) is None,
        decreases ms@.len() - i,
    {
        assert(ms@.take(i + 1).drop_last() =~= ms@.take(i as int));
        assert(decreases_to!(*ms => ms[i as int]));
        assert(decreases_to!(ms[i as int] => ms[i as int].1));
        match check_source(&ms[i].1) {
            Some(e) => {
                proof {
                    lemma_mappings_error_stays(ms@, i as int + 1);
                }
                return Some(e);
            },
            None => {},
        }
        i = i + 1;
    }
    assert(ms@.take(ms@.len() as int) =~= ms@);
    None
}

/// The value of a source in an answer.
fn extract(src: &FieldSource, input: &JsonValue) -> (r: JsonValue)
    requires
        source_error(*src) is None,
    ensures
        r@ == spec_extract(*src, input@),
    decreases src,
{
    match src {
        FieldSource::Path(p) => match jsonpath_query(p.as_str(), input) {
            Ok(nodes) => PipelineExecutor::query_value(nodes),
            Err(_) => JsonValue::Null,
        },
        FieldSource::Literal(v) => v.duplicate(),
        FieldSource::Coalesce(ps) => {
            proof {
                lemma_paths_ok(ps@);
            }
            let mut values: Vec<JsonValue> = Vec::new();
            let mut i: usize = 0;
            while i < ps.len()
                invariant
                    i <= ps@.len(),
                    forall|k: int| 0 <= k < ps@.len() ==> jsonpath_parse_error((#[trigger] ps@[k])@) is None,
                    items_view(values@) == firsts(ps@.take(i as int), input@),
                decreases ps@.len() - i,
            {
                assert(ps@.take(i + 1).drop_last() =~= ps@.take(i as int));
                let v = match query_first(ps[i].as_str(), input) {
                    Ok(Some(n)) => n,
                    _ => JsonValue::Null,
                };
                let ghost before = values@;
                values.push(v);
                assert(items_view(values@) =~= items_view(before).push(v@));
                i = i + 1;
            }
            assert(ps@.take(ps@.len() as int) =~= ps@);
            assert(values@.map_values(|v: JsonValue| v@) =~= items_view(values@));
            SchemaMapExecutor::coalesce(&values)
        },
        FieldSource::Template { template, vars } => {
            proof {
                lemma_vars_ok(vars@);
            }
            let mut values: Vec<(String, String)> = Vec::new();
            let mut i: usize = 0;
            while i < vars.len()
                invariant
                    i <= vars@.len(),
                    forall|k: int| 0 <= k < vars@.len() ==> jsonpath_parse_error((#[trigger] vars@[k]).1@) is None,
                    values@.map_values(|v: (String, String)| (v.0@, v.1@)) == var_values(vars@.take(i as int), input@),
                decreases vars@.len() - i,
            {
                assert(vars@.take(i + 1).drop_last() =~= vars@.take(i as int));
                let s = match query_first(vars[i].1.as_str(), input) {
                    Ok(Some(JsonValue::String(s))) => s,
                    _ => String::new(),
                };
                let ghost before = values@;
                values.push((vars[i].0.clone(), s));
                assert(values@.map_values(|v: (String, String)| (v.0@, v.1@)) =~= before.map_values(
                    |v: (String, String)| (v.0@, v.1@),
                ).push((vars@[i as int].0@, s@)));
                i = i + 1;
            }
            assert(vars@.take(vars@.len() as int) =~= vars@);
            JsonValue::String(SchemaMapExecutor::template(template, &values))
        },
        FieldSource::Concat { paths, separator } => {
            proof {
                lemma_paths_ok(paths@);
            }
            let mut parts: Vec<Option<String>> = Vec::new();
            let mut i: usize = 0;
            while i < paths.len()
                invariant
                    i <= paths@.len(),
                    forall|k: int| 0 <= k < paths@.len() ==> jsonpath_parse_error((#[trigger] paths@[k])@) is None,
                    parts@.map_values(|p: Option<String>| match p { Some(s) => Some(s@), None => None })
                        == first_strings(paths@.take(i as int), input@),
                decreases paths@.len() - i,
            {
                assert(paths@.take(i + 1).drop_last() =~= paths@.take(i as int));
                let part = match query_first(paths[i].as_str(), input) {
                    Ok(Some(JsonValue::String(s))) => Some(s),
                    _ => None,
                };
                let ghost before = parts@;
                parts.push(part);
                assert(parts@.map_values(|p: Option<String>| match p { Some(s) => Some(s@), None => None })
                    =~= before.map_values(|p: Option<String>| match p { Some(s) => Some(s@), None => None }).push(
                    first_string(paths@[i as int]@, input@),
                ));
                i = i + 1;
            }
            assert(paths@.take(paths@.len() as int) =~= paths@);
            JsonValue::String(SchemaMapExecutor::concat(&parts, Some(separator)))
        },
        FieldSource::Nested(ms) => {
            assert(decreases_to!(*src => *ms));
            transform_members(ms, input)
        },
    }
}

/// The transformed answer of a transform whose paths all parse.
fn transform_members(ms: &Vec<(String, FieldSource)>, input: &JsonValue) -> (r: JsonValue)
    requires
        mappings_error(ms@) is None,
    ensures
        r@ == JsonView::Object(spec_transform(ms@, input@)),
    decreases ms,
{
    proof {
        lemma_mappings_ok(ms@);
    }
    let mut names: Vec<String> = Vec::new();
    let mut i: usize = 0;
    while i < ms.len()
        invariant
            i <= ms@.len(),
            strings_view(names@) == names_of(ms@).take(i as int),
        decreases ms@.len() - i,
    {
        let ghost before = names@;
        names.push(ms[i].0.clone());
        assert(strings_view(names@) =~= strings_view(before).push(ms@[i as int].0@));
        assert(names_of(ms@).take(i + 1) =~= names_of(ms@).take(i as int).push(ms@[i as int].0@));
        i = i + 1;
    }
    assert(names_of(ms@).take(ms@.len() as int) =~= names_of(ms@));
    let ghost nv = names_of(ms@);
    let groups = group_mappings(&names);
    let ghost bases = base_indices(nv);
    proof {
        lemma_base_indices_range(nv);
        assert(groups.base@.map_values(|b: crate::output_transform::BaseMapping| b.index as int).len() == bases.len());
    }
    let mut fields: Vec<(String, JsonValue)> = Vec::new();
    let mut k: usize = 0;
    assert(bases.take(0) =~= Seq::<int>::empty());
    while k < groups.base.len()
        invariant
            k <= groups.base@.len() == bases.len(),
            nv == names_of(ms@),
            nv.len() == ms@.len(),
            strings_view(names@) == nv,
            bases == base_indices(nv),
            groups.base@.map_values(|b: crate::output_transform::BaseMapping| b.index as int) == bases,
            forall|q: int|
                0 <= q < groups.base@.len() ==> item_fields_view((#[trigger] groups.base@[q]).items@) == items_of(
                    nv,
                    names@[groups.base@[q].index as int]@,
                ),
            forall|q: int| 0 <= q < bases.len() ==> 0 <= #[trigger] bases[q] < nv.len(),
            forall|j: int| 0 <= j < ms@.len() ==> source_error((#[trigger] ms@[j]).1) is None,
            members_view(fields@) == spec_fields(ms@, bases.take(k as int), input@),
        decreases groups.base@.len() - k,
    {
        let base = &groups.base[k];
        let b = base.index;
        assert(bases[k as int] == b as int);
        assert(bases.take(k + 1).drop_last() =~= bases.take(k as int));
        assert(bases.take(k + 1).last() == b as int);
        assert(decreases_to!(*ms => ms[b as int]));
        assert(decreases_to!(ms[b as int] => ms[b as int].1));
        let x = extract(&ms[b].1, input);
        let ghost xv = x@;
        let ghost its = items_of(nv, ms@[b as int].0@);
        proof {
            assert(names@[b as int]@ == nv[b as int]);
            assert(item_fields_view(base.items@) == its);
            lemma_items_range(nv, ms@[b as int].0@);
        }
        let value = match x {
            JsonValue::Array(xs) => {
                if base.items.len() > 0 {
                    let mut item_names: Vec<String> = Vec::new();
                    let mut q: usize = 0;
                    while q < base.items.len()
                        invariant
                            q <= base.items@.len(),
                            item_names@.len() == q,
                            item_fields_view(base.items@) == its,
                            strings_view(item_names@) == its.map_values(|f: (Seq<char>, int)| f.0).take(q as int),
                        decreases base.items@.len() - q,
                    {
                        let ghost before = item_names@;
                        item_names.push(base.items[q].0.clone());
                        assert(its[q as int].0 == base.items@[q as int].0@);
                        assert(strings_view(item_names@) =~= strings_view(before).push(base.items@[q as int].0@));
                        assert(its.map_values(|f: (Seq<char>, int)| f.0).take(q + 1) =~= its.map_values(
                            |f: (Seq<char>, int)| f.0,
                        ).take(q as int).push(its[q as int].0));
                        q = q + 1;
                    }
                    assert(its.map_values(|f: (Seq<char>, int)| f.0).take(base.items@.len() as int) =~= its.map_values(
                        |f: (Seq<char>, int)| f.0,
                    ));
                    let mut objects: Vec<JsonValue> = Vec::new();
                    let mut e: usize = 0;
                    assert(items_view(xs@).take(0) =~= Seq::<JsonView>::empty());
                    while e < xs.len()
                        invariant
                            e <= xs@.len(),
                            item_fields_view(base.items@) == its,
                            strings_view(item_names@) == its.map_values(|f: (Seq<char>, int)| f.0),
                            forall|t: int| 0 <= t < its.len() ==> 0 <= (#[trigger] its[t]).1 < nv.len(),
                            nv.len() == ms@.len(),
                            forall|j: int| 0 <= j < ms@.len() ==> source_error((#[trigger] ms@[j]).1) is None,
                            item_names@.len() == base.items@.len(),
                            items_view(objects@) == spec_item_objects(ms@, its, items_view(xs@).take(e as int)),
                        decreases xs@.len() - e,
                    {
                        let mut values: Vec<JsonValue> = Vec::new();
                        let mut q: usize = 0;
                        while q < base.items.len()
                            invariant
                                q <= base.items@.len(),
                                e < xs@.len(),
                                item_fields_view(base.items@) == its,
                                forall|t: int| 0 <= t < its.len() ==> 0 <= (#[trigger] its[t]).1 < nv.len(),
                                nv.len() == ms@.len(),
                                forall|j: int| 0 <= j < ms@.len() ==> source_error((#[trigger] ms@[j]).1) is None,
                                values@.len() == q,
                                items_view(values@) == spec_item_values(ms@, its.take(q as int), xs@[e as int]@),
                            decreases base.items@.len() - q,
                        {
                            let j = base.items[q].1;
                            assert(its[q as int].1 == j as int);
                            assert(its.take(q + 1).drop_last() =~= its.take(q as int));
                            assert(decreases_to!(*ms => ms[j as int]));
                            assert(decreases_to!(ms[j as int] => ms[j as int].1));
                            let v = extract(&ms[j].1, &xs[e]);
                            let ghost before = values@;
                            values.push(v);
                            assert(items_view(values@) =~= items_view(before).push(v@));
                            q = q + 1;
                        }
                        assert(its.take(base.items@.len() as int) =~= its);
                        let obj = item_object(&item_names, values);
                        let ghost before = objects@;
                        objects.push(obj);
                        assert(items_view(xs@).take(e + 1).drop_last() =~= items_view(xs@).take(e as int));
                        assert(items_view(objects@) =~= items_view(before).push(obj@));
                        e = e + 1;
                    }
                    assert(items_view(xs@).take(xs@.len() as int) =~= items_view(xs@));
                    JsonValue::Array(objects)
                } else {
                    JsonValue::Array(xs)
                }
            },
            other => other,
        };
        proof {
            if xv is Array {
                reveal_with_fuel(crate::json::json_view, 2);
            }
            assert(value@ == spec_shaped(ms@, b as int, input@));
        }
        let ghost before = fields@;
        fields.push((ms[b].0.clone(), value));
        assert(members_view(fields@) =~= members_view(before).push((ms@[b as int].0@, value@)));
        k = k + 1;
    }
    assert(bases.take(bases.len() as int) =~= bases);
    assemble_output(fields, &groups.orphans)
}

/// Checks, as compiling a transform does, that every path of its sources is a
/// JSONPath; the first that is not is an `InvalidJsonPath` error with its parse
/// error.
pub fn check_output_paths(mappings: &Vec<(String, FieldSource)>) -> (r: Result<(), RegistryError>)
    ensures
        match mappings_error(mappings@) {
            Some((p, m)) => r matches Err(RegistryError::InvalidJsonPath { path, message }) && path@ == p
                && message@ == m,
            None => r is Ok,
        },
{
    match check_mappings(mappings) {
        Some((p, m)) => Err(RegistryError::invalid_jsonpath(p, m)),
        None => Ok(()),
    }
}

/// Applies an output transform to a backend's answer (see `spec_transform`); a
/// path that is not a JSONPath is an `InvalidJsonPath` error.
pub fn apply_output_transform(mappings: &Vec<(String, FieldSource)>, input: &JsonValue) -> (r: Result<
    JsonValue,
    RegistryError,
>)
    ensures
        match mappings_error(mappings@) {
            Some((p, m)) => r matches Err(RegistryError::InvalidJsonPath { path, message }) && path@ == p
                && message@ == m,
            None => r matches Ok(v) && v@ == JsonView::Object(spec_transform(mappings@, input@)),
        },
{
    match check_output_paths(mappings) {
        Err(e) => Err(e),
        Ok(()) => Ok(transform_members(mappings, input)),
    }
}

} // verus!

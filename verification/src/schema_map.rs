//! The schema-map pattern: an output object whose fields are taken from the
//! input by JSONPath queries, fixed values, the first present value of a list,
//! joined text, text templates and nested maps. Non-string values are rendered
//! as JSON text where text is built.
use vstd::prelude::*;
use crate::json::{JsonValue, JsonView};
use crate::text::{str_to_chars, chars_to_string, concat_str, push_char, str_eq};
use crate::jsonpath::{jsonpath_parse_error, jsonpath_nodes, jsonpath_query, to_serde};
use crate::pipeline::{PipelineExecutor, spec_query_value};
use crate::scatter_gather::ExecutionError;

verus! {

broadcast use crate::json::group_json_view;

/// Coalesce source: the first non-null value among the paths.
#[derive(Debug, Clone, PartialEq, Eq)]
pub struct CoalesceSource {
    /// JSONPaths to try in order
    pub paths: Vec<String>,
}

/// Template source: string interpolation of `{var}` placeholders.
#[derive(Debug, Clone, PartialEq, Eq)]
pub struct TemplateSource {
    /// Template string with {var} placeholders
    pub template: String,
    /// Variable name and the JSONPath it is bound to
    pub vars: Vec<(String, String)>,
}

/// Concat source: the values of several paths joined.
#[derive(Debug, Clone, PartialEq, Eq)]
pub struct ConcatSource {
    /// JSONPaths to concatenate
    pub paths: Vec<String>,
    /// Separator between values
    pub separator: Option<String>,
}

/// The first value that is not null, or null.
pub open spec fn spec_coalesce(values: Seq<JsonView>) -> JsonView
    decreases values.len(),
{
    if values.len() == 0 {
        JsonView::Null
    } else if values[0] != JsonView::Null {
        values[0]
    } else {
        spec_coalesce(values.drop_first())
    }
}

/// The present parts joined by `sep`; absent (null) parts are left out.
pub open spec fn spec_join(parts: Seq<Option<Seq<char>>>, sep: Seq<char>) -> Seq<char>
    decreases parts.len(),
{
    if parts.len() == 0 {
        Seq::empty()
    } else {
        let rest = spec_join(parts.drop_last(), sep);
        match parts.last() {
            Some(p) => if present_count(parts.drop_last()) == 0 { p } else { rest + sep + p },
            None => rest,
        }
    }
}

/// Number of present parts.
pub open spec fn present_count(parts: Seq<Option<Seq<char>>>) -> nat
    decreases parts.len(),
{
    if parts.len() == 0 {
        0
    } else {
        present_count(parts.drop_last()) + if parts.last() is Some { 1nat } else { 0nat }
    }
}

/// `s` with each occurrence of the non-empty `pat` replaced by `rep`, left to
/// right, without overlaps (`str::replace`).
pub open spec fn replace_all(s: Seq<char>, pat: Seq<char>, rep: Seq<char>) -> Seq<char>
    decreases s.len(),
{
    if pat.len() == 0 || s.len() < pat.len() {
        s
    } else if s.take(pat.len() as int) == pat {
        rep + replace_all(s.skip(pat.len() as int), pat, rep)
    } else {
        seq![s[0]] + replace_all(s.skip(1), pat, rep)
    }
}

/// The template with the placeholder `{name}` of each variable replaced by its
/// value, one variable after the other.
pub open spec fn spec_fill(template: Seq<char>, vars: Seq<(Seq<char>, Seq<char>)>) -> Seq<char>
    decreases vars.len(),
{
    if vars.len() == 0 {
        template
    } else {
        let t = spec_fill(template, vars.drop_last());
        replace_all(t, seq!['{'] + vars.last().0 + seq!['}'], vars.last().1)
    }
}

/// Replaces each occurrence of `pat` (non-empty) in `s` by `rep`.
pub fn replace_all_exec(s: &str, pat: &str, rep: &str) -> (r: String)
    requires
        pat@.len() > 0,
    ensures
        r@ == replace_all(s@, pat@, rep@),
{
    let chars = str_to_chars(s);
    let p = str_to_chars(pat);
    let ghost sv = chars@;
    let ghost pv = p@;
    let n = chars.len();
    let plen = p.len();
    let mut out = String::new();
    let mut i: usize = 0;
    assert(sv.skip(0) =~= sv);
    while i < n
        invariant
            i <= n == sv.len(),
            sv == chars@,
            sv == s@,
            pv == p@,
            pv == pat@,
            plen == pv.len(),
            plen > 0,
            out@ + replace_all(sv.skip(i as int), pv, rep@) == replace_all(sv, pv, rep@),
        decreases n - i,
    {
        let ghost rest = sv.skip(i as int);
        let mut matched = plen <= n - i;
        if matched {
            let mut k: usize = 0;
            while k < plen
                invariant
                    k <= plen,
                    i + plen <= n == sv.len(),
                    sv == chars@,
                    pv == p@,
                    plen == pv.len(),
                    matched == forall|q: int| 0 <= q < k ==> sv[i + q] == pv[q],
                decreases plen - k,
            {
                if chars[i + k] != p[k] {
                    matched = false;
                }
                k = k + 1;
            }
            assert(matched == (rest.take(plen as int) =~= pv)) by {
                if matched {
                    assert(rest.take(plen as int) =~= pv);
                } else {
                    let q = choose|q: int| 0 <= q < plen && !(sv[i + q] == pv[q]);
                    assert(rest.take(plen as int)[q] != pv[q]);
                }
            }
        }
        if matched {
            out = concat_str(out.as_str(), rep);
            assert(rest.skip(plen as int) =~= sv.skip(i + plen));
            i = i + plen;
        } else {
            let ghost before = out@;
            push_char(&mut out, chars[i]);
            proof {
                if rest.len() >= plen {
                    assert(rest.skip(1) =~= sv.skip(i + 1));
                    assert(out@ + replace_all(sv.skip(i + 1), pv, rep@) =~= before + (seq![rest[0]] + replace_all(
                        rest.skip(1),
                        pv,
                        rep@,
                    )));
                } else {
                    assert(sv.skip(i + 1) =~= rest.skip(1));
                    assert(replace_all(rest, pv, rep@) == rest);
                    assert(replace_all(sv.skip(i + 1), pv, rep@) == sv.skip(i + 1));
                    assert(rest =~= seq![rest[0]] + rest.skip(1));
                }
            }
            i = i + 1;
        }
    }
    assert(sv.skip(n as int) =~= Seq::<char>::empty());
    out
}

/// A schema-map pattern: each field of the output and where its value comes from.
#[derive(Debug)]
pub struct SchemaMapSpec {
    pub mappings: Vec<(String, FieldSource)>,
}

/// Where a field of a schema map's output comes from.
#[derive(Debug)]
pub enum FieldSource {
    /// The value a JSONPath selects in the input
    Path(String),
    /// A fixed value
    Literal(JsonValue),
    /// The first non-null value among several paths
    Coalesce(CoalesceSource),
    /// A string template filled from paths
    Template(TemplateSource),
    /// The values of several paths joined
    Concat(ConcatSource),
    /// A nested object mapped from the same input
    Nested(Box<SchemaMapSpec>),
}

impl FieldSource {
    /// A path source.
    pub fn path(p: String) -> (r: FieldSource)
        ensures
            r == FieldSource::Path(p),
    {
        FieldSource::Path(p)
    }

    /// A string literal source.
    pub fn string(s: String) -> (r: FieldSource)
        ensures
            r matches FieldSource::Literal(v) && v@ == JsonView::String(s@),
    {
        FieldSource::Literal(JsonValue::String(s))
    }

    /// A boolean literal source.
    pub fn bool(b: bool) -> (r: FieldSource)
        ensures
            r matches FieldSource::Literal(v) && v@ == JsonView::Bool(b),
    {
        FieldSource::Literal(JsonValue::Bool(b))
    }

    /// A null literal source.
    pub fn null() -> (r: FieldSource)
        ensures
            r matches FieldSource::Literal(v) && v@ == JsonView::Null,
    {
        FieldSource::Literal(JsonValue::Null)
    }

    /// A coalesce source over the paths.
    pub fn coalesce(paths: Vec<String>) -> (r: FieldSource)
        ensures
            r matches FieldSource::Coalesce(c) && c.paths@ == paths@,
    {
        FieldSource::Coalesce(CoalesceSource { paths })
    }
}

/// What `serde_json::to_string` writes for a value.
pub uninterp spec fn compact_json(value: JsonView) -> Seq<char>;

/// Calls `serde_json::to_string` (empty on its error, which a value cannot
/// give). Claims that the text is a function of the value.
#[verifier::external_body]
fn json_compact(value: &JsonValue) -> (r: String)
    ensures
        r@ == compact_json(value@),
{
    serde_json::to_string(&to_serde(value)).unwrap_or_default()
}

/// The value a path selects in the input: the input itself for `$`; otherwise
/// the only node selected, null for none and the array of them for several; the
/// error text `<path>: <parse error>` when the path does not parse.
pub open spec fn spec_path_value(path: Seq<char>, input: JsonView) -> Result<JsonView, Seq<char>> {
    if path == "$"@ {
        Ok(input)
    } else {
        match jsonpath_parse_error(path) {
            Some(m) => Err(path + ": "@ + m),
            None => Ok(spec_query_value(jsonpath_nodes(path, input))),
        }
    }
}

/// A value as a template renders it: a string as it is, null as nothing, any
/// other value as its JSON text.
pub open spec fn rendered(v: JsonView) -> Seq<char> {
    match v {
        JsonView::String(s) => s,
        JsonView::Null => Seq::empty(),
        _ => compact_json(v),
    }
}

/// A value as a concatenation takes it: a string as it is, null left out, any
/// other value as its JSON text.
pub open spec fn concat_part(v: JsonView) -> Option<Seq<char>> {
    match v {
        JsonView::Null => None,
        _ => Some(rendered(v)),
    }
}

/// The first value among the paths that is not null (null when none is); the
/// first path error met before it instead.
pub open spec fn coalesce_paths(paths: Seq<String>, input: JsonView) -> Result<JsonView, Seq<char>>
    decreases paths.len(),
{
    if paths.len() == 0 {
        Ok(JsonView::Null)
    } else {
        match spec_path_value(paths[0]@, input) {
            Err(e) => Err(e),
            Ok(v) => if v != JsonView::Null {
                Ok(v)
            } else {
                coalesce_paths(paths.drop_first(), input)
            },
        }
    }
}

/// Each template variable with its rendered value, in order; the first path
/// error instead.
pub open spec fn template_values(vars: Seq<(String, String)>, input: JsonView) -> Result<
    Seq<(Seq<char>, Seq<char>)>,
    Seq<char>,
>
    decreases vars.len(),
{
    if vars.len() == 0 {
        Ok(Seq::empty())
    } else {
        match template_values(vars.drop_last(), input) {
            Err(e) => Err(e),
            Ok(acc) => match spec_path_value(vars.last().1@, input) {
                Err(e) => Err(e),
                Ok(v) => Ok(acc.push((vars.last().0@, rendered(v)))),
            },
        }
    }
}

/// The parts of a concatenation, in order; the first path error instead.
pub open spec fn concat_parts(paths: Seq<String>, input: JsonView) -> Result<Seq<Option<Seq<char>>>, Seq<char>>
    decreases paths.len(),
{
    if paths.len() == 0 {
        Ok(Seq::empty())
    } else {
        match concat_parts(paths.drop_last(), input) {
            Err(e) => Err(e),
            Ok(acc) => match spec_path_value(paths.last()@, input) {
                Err(e) => Err(e),
                Ok(v) => Ok(acc.push(concat_part(v))),
            },
        }
    }
}

/// The value of a source in the input; the first path error instead.
pub open spec fn source_value(src: FieldSource, input: JsonView) -> Result<JsonView, Seq<char>>
    decreases src, 0int,
{
    match src {
        FieldSource::Path(p) => spec_path_value(p@, input),
        FieldSource::Literal(v) => Ok(v@),
        FieldSource::Coalesce(c) => coalesce_paths(c.paths@, input),
        FieldSource::Template(t) => match template_values(t.vars@, input) {
            Err(e) => Err(e),
            Ok(vs) => Ok(JsonView::String(spec_fill(t.template@, vs))),
        },
        FieldSource::Concat(c) => match concat_parts(c.paths@, input) {
            Err(e) => Err(e),
            Ok(ps) => Ok(JsonView::String(spec_join(ps, match c.separator { Some(x) => x@, None => Seq::empty() }))),
        },
        FieldSource::Nested(b) => match mapped_fields(b.mappings@, input) {
            Err(e) => Err(e),
            Ok(fs) => Ok(JsonView::Object(fs)),
        },
    }
}

/// Each mapped field with its value, in order; the first path error instead.
pub open spec fn mapped_fields(ms: Seq<(String, FieldSource)>, input: JsonView) -> Result<
    Seq<(Seq<char>, JsonView)>,
    Seq<char>,
>
    decreases ms, 1int,
{
    if ms.len() == 0 {
        Ok(Seq::empty())
    } else {
        match mapped_fields(ms.drop_last(), input) {
            Err(e) => Err(e),
            Ok(acc) => match source_value(ms.last().1, input) {
                Err(e) => Err(e),
                Ok(v) => Ok(acc.push((ms.last().0@, v))),
            },
        }
    }
}

/// The position of the first mapping of `field`, or -1.
pub open spec fn field_index(ms: Seq<(String, FieldSource)>, field: Seq<char>) -> int
    decreases ms.len(),
{
    if ms.len() == 0 {
        -1
    } else {
        let k = field_index(ms.drop_last(), field);
        if k >= 0 {
            k
        } else if ms.last().0@ == field {
            ms.len() - 1
        } else {
            -1
        }
    }
}

proof fn lemma_field_index(ms: Seq<(String, FieldSource)>, field: Seq<char>)
    ensures
        -1 <= field_index(ms, field) < ms.len(),
        field_index(ms, field) >= 0 ==> ms[field_index(ms, field)].0@ == field,
        field_index(ms, field) == -1 ==> forall|j: int| 0 <= j < ms.len() ==> ms[j].0@ != field,
    decreases ms.len(),
{
    if ms.len() > 0 {
        let a = ms.drop_last();
        lemma_field_index(a, field);
        if field_index(ms, field) == -1 {
            assert forall|j: int| 0 <= j < ms.len() implies ms[j].0@ != field by {
                if j < a.len() {
                    assert(ms[j] == a[j]);
                }
            }
        }
    }
}

/// The mappings with `field` mapped to `src`: its first mapping replaced, or the
/// mapping added at the end.
pub open spec fn with_mapping(ms: Seq<(String, FieldSource)>, field: String, src: FieldSource) -> Seq<
    (String, FieldSource),
> {
    let k = field_index(ms, field@);
    if k >= 0 {
        ms.update(k, (field, src))
    } else {
        ms.push((field, src))
    }
}

/// Maps `field` to `src` in `ms` (see `with_mapping`).
fn set_mapping(ms: &mut Vec<(String, FieldSource)>, field: String, src: FieldSource)
    ensures
        final(ms)@ == with_mapping(old(ms)@, field, src),
{
    let ghost m0 = ms@;
    let mut i: usize = 0;
    while i < ms.len()
        invariant
            ms@ == m0,
            m0 == old(ms)@,
            i <= m0.len(),
            field_index(m0.take(i as int), field@) == -1,
        decreases m0.len() - i,
    {
        assert(m0.take(i + 1).drop_last() =~= m0.take(i as int));
        if str_eq(ms[i].0.as_str(), field.as_str()) {
            proof {
                assert(m0.take(i + 1).last() == m0[i as int]);
                assert(field_index(m0.take(i + 1), field@) == i);
                lemma_field_index_prefix(m0, field@, i as int + 1);
            }
            ms.set(i, (field, src));
            return ;
        }
        i = i + 1;
    }
    assert(m0.take(m0.len() as int) =~= m0);
    ms.push((field, src));
}

proof fn lemma_field_index_prefix(ms: Seq<(String, FieldSource)>, field: Seq<char>, k: int)
    requires
        0 <= k <= ms.len(),
        field_index(ms.take(k), field) >= 0,
    ensures
        field_index(ms, field) == field_index(ms.take(k), field),
    decreases ms.len() - k,
{
    if k < ms.len() {
        assert(ms.take(k + 1).drop_last() =~= ms.take(k));
        lemma_field_index_prefix(ms, field, k + 1);
    } else {
        assert(ms.take(k) =~= ms);
    }
}

impl SchemaMapSpec {
    /// A schema map with the given mappings.
    pub fn new(mappings: Vec<(String, FieldSource)>) -> (r: SchemaMapSpec)
        ensures
            r.mappings@ == mappings@,
    {
        SchemaMapSpec { mappings }
    }

    /// A schema map without mappings.
    pub fn empty() -> (r: SchemaMapSpec)
        ensures
            r.mappings@.len() == 0,
    {
        SchemaMapSpec { mappings: Vec::new() }
    }

    /// This schema map with `field` taken from the nodes that `path` selects.
    pub fn with_path(self, field: String, path: String) -> (r: SchemaMapSpec)
        ensures
            r.mappings@ == with_mapping(self.mappings@, field, FieldSource::Path(path)),
    {
        let mut mappings = self.mappings;
        set_mapping(&mut mappings, field, FieldSource::Path(path));
        SchemaMapSpec { mappings }
    }

    /// This schema map with `field` set to a fixed value.
    pub fn with_literal(self, field: String, value: JsonValue) -> (r: SchemaMapSpec)
        ensures
            r.mappings@ == with_mapping(self.mappings@, field, FieldSource::Literal(value)),
    {
        let mut mappings = self.mappings;
        set_mapping(&mut mappings, field, FieldSource::Literal(value));
        SchemaMapSpec { mappings }
    }
}

/// Executor of the schema-map pattern's combinators.
pub struct SchemaMapExecutor;

impl SchemaMapExecutor {
    /// The first value that is not null, or null.
    pub fn coalesce(values: &Vec<JsonValue>) -> (r: JsonValue)
        ensures
            r@ == spec_coalesce(values@.map_values(|v: JsonValue| v@)),
    {
        let ghost vs = values@.map_values(|v: JsonValue| v@);
        let mut i: usize = 0;
        assert(vs.skip(0) =~= vs);
        while i < values.len()
            invariant
                i <= values@.len(),
                vs == values@.map_values(|v: JsonValue| v@),
                spec_coalesce(vs.skip(i as int)) == spec_coalesce(vs),
            decreases values@.len() - i,
        {
            assert(vs.skip(i as int)[0] == values@[i as int]@);
            assert(vs.skip(i as int).drop_first() =~= vs.skip(i + 1));
            match &values[i] {
                JsonValue::Null => {},
                v => {
                    return v.duplicate();
                },
            }
            i = i + 1;
        }
        JsonValue::Null
    }

    /// The rendered values joined by the separator (none when it is absent);
    /// null values (`None`) are left out.
    pub fn concat(parts: &Vec<Option<String>>, separator: Option<&String>) -> (r: String)
        ensures
            r@ == spec_join(
                parts@.map_values(|p: Option<String>| match p { Some(s) => Some(s@), None => None }),
                match separator { Some(s) => s@, None => Seq::empty() },
            ),
    {
        let ghost ps = parts@.map_values(|p: Option<String>| match p { Some(s) => Some(s@), None => None });
        let ghost sep = match separator { Some(s) => s@, None => Seq::<char>::empty() };
        let mut out = String::new();
        let mut count: usize = 0;
        let mut i: usize = 0;
        assert(ps.take(0) =~= Seq::<Option<Seq<char>>>::empty());
        while i < parts.len()
            invariant
                i <= parts@.len(),
                ps == parts@.map_values(|p: Option<String>| match p { Some(s) => Some(s@), None => None }),
                sep == match separator { Some(s) => s@, None => Seq::<char>::empty() },
                out@ == spec_join(ps.take(i as int), sep),
                count == present_count(ps.take(i as int)),
                count <= i,
            decreases parts@.len() - i,
        {
            assert(ps.take(i + 1).drop_last() =~= ps.take(i as int));
            assert(ps.take(i + 1).last() == ps[i as int]);
            match &parts[i] {
                Some(p) => {
                    if count > 0 {
                        match separator {
                            Some(s) => {
                                out = concat_str(out.as_str(), s.as_str());
                            },
                            None => {},
                        }
                        out = concat_str(out.as_str(), p.as_str());
                    } else {
                        out = p.clone();
                    }
                    count = count + 1;
                },
                None => {},
            }
            i = i + 1;
        }
        assert(ps.take(parts@.len() as int) =~= ps);
        out
    }

    /// The template with each variable's `{name}` placeholder replaced by its
    /// rendered value, one variable after the other.
    pub fn template(template: &String, vars: &Vec<(String, String)>) -> (r: String)
        ensures
            r@ == spec_fill(template@, vars@.map_values(|v: (String, String)| (v.0@, v.1@))),
    {
        let ghost vs = vars@.map_values(|v: (String, String)| (v.0@, v.1@));
        let mut out = template.clone();
        let mut i: usize = 0;
        assert(vs.take(0) =~= Seq::<(Seq<char>, Seq<char>)>::empty());
        while i < vars.len()
            invariant
                i <= vars@.len(),
                vs == vars@.map_values(|v: (String, String)| (v.0@, v.1@)),
                out@ == spec_fill(template@, vs.take(i as int)),
            decreases vars@.len() - i,
        {
            assert(vs.take(i + 1).drop_last() =~= vs.take(i as int));
            assert(vs.take(i + 1).last() == (vars@[i as int].0@, vars@[i as int].1@));
            let open = concat_str("{", vars[i].0.as_str());
            let placeholder = concat_str(open.as_str(), "}");
            proof {
                reveal_strlit("{");
                reveal_strlit("}");
            }
            assert(placeholder@ == seq!['{'] + vars@[i as int].0@ + seq!['}']);
            out = replace_all_exec(out.as_str(), placeholder.as_str(), vars[i].1.as_str());
            i = i + 1;
        }
        assert(vs.take(vars@.len() as int) =~= vs);
        out
    }
}

/// Whether an executor's result is the given outcome: the value, or the JSONPath
/// error with that text.
pub open spec fn same_outcome(r: Result<JsonValue, ExecutionError>, s: Result<JsonView, Seq<char>>) -> bool {
    match s {
        Ok(v) => r matches Ok(x) && x@ == v,
        Err(m) => r matches Err(ExecutionError::JsonPathError(e)) && e@ == m,
    }
}

/// The outcome of a schema map on an input: the object of its mapped fields.
pub open spec fn spec_schema_map(ms: Seq<(String, FieldSource)>, input: JsonView) -> Result<JsonView, Seq<char>> {
    match mapped_fields(ms, input) {
        Ok(fs) => Ok(JsonView::Object(fs)),
        Err(e) => Err(e),
    }
}

/// A schema map that succeeds answers one field per mapping, under the mapping's
/// name and in the mappings' order.
pub proof fn law_schema_map_fields(ms: Seq<(String, FieldSource)>, input: JsonView)
    requires
        mapped_fields(ms, input) is Ok,
    ensures
        mapped_fields(ms, input)->Ok_0.len() == ms.len(),
        forall|k: int| 0 <= k < ms.len() ==> (#[trigger] mapped_fields(ms, input)->Ok_0[k]).0 == ms[k].0@,
    decreases ms.len(),
{
    if ms.len() > 0 {
        law_schema_map_fields(ms.drop_last(), input);
        let fs = mapped_fields(ms, input)->Ok_0;
        let acc = mapped_fields(ms.drop_last(), input)->Ok_0;
        assert forall|k: int| 0 <= k < ms.len() implies (#[trigger] fs[k]).0 == ms[k].0@ by {
            if k < ms.len() - 1 {
                assert(fs[k] == acc[k]);
                assert(ms.drop_last()[k] == ms[k]);
            }
        }
    }
}

proof fn lemma_mapped_err_stays(ms: Seq<(String, FieldSource)>, input: JsonView, k: int)
    requires
        0 < k <= ms.len(),
        mapped_fields(ms.take(k), input) is Err,
    ensures
        mapped_fields(ms, input) == mapped_fields(ms.take(k), input),
    decreases ms.len() - k,
{
    if k < ms.len() {
        assert(ms.take(k + 1).drop_last() =~= ms.take(k));
        lemma_mapped_err_stays(ms, input, k + 1);
    } else {
        assert(ms.take(k) =~= ms);
    }
}

proof fn lemma_template_err_stays(vs: Seq<(String, String)>, input: JsonView, k: int)
    requires
        0 < k <= vs.len(),
        template_values(vs.take(k), input) is Err,
    ensures
        template_values(vs, input) == template_values(vs.take(k), input),
    decreases vs.len() - k,
{
    if k < vs.len() {
        assert(vs.take(k + 1).drop_last() =~= vs.take(k));
        lemma_template_err_stays(vs, input, k + 1);
    } else {
        assert(vs.take(k) =~= vs);
    }
}

proof fn lemma_concat_err_stays(ps: Seq<String>, input: JsonView, k: int)
    requires
        0 < k <= ps.len(),
        concat_parts(ps.take(k), input) is Err,
    ensures
        concat_parts(ps, input) == concat_parts(ps.take(k), input),
    decreases ps.len() - k,
{
    if k < ps.len() {
        assert(ps.take(k + 1).drop_last() =~= ps.take(k));
        lemma_concat_err_stays(ps, input, k + 1);
    } else {
        assert(ps.take(k) =~= ps);
    }
}

/// The value a path selects in the input (see `spec_path_value`).
fn extract_path(path: &str, input: &JsonValue) -> (r: Result<JsonValue, ExecutionError>)
    ensures
        same_outcome(r, spec_path_value(path@, input@)),
{
    if str_eq(path, "$") {
        return Ok(input.duplicate());
    }
    match jsonpath_query(path, input) {
        Err(m) => {
            let head = concat_str(path, ": ");
            Err(ExecutionError::JsonPathError(concat_str(head.as_str(), m.as_str())))
        },
        Ok(nodes) => Ok(PipelineExecutor::query_value(nodes)),
    }
}

/// The value of a source in the input (see `source_value`).
fn extract_source(src: &FieldSource, input: &JsonValue) -> (r: Result<JsonValue, ExecutionError>)
    ensures
        same_outcome(r, source_value(*src, input@)),
    decreases src, 0int,
{
    match src {
        FieldSource::Path(p) => extract_path(p.as_str(), input),
        FieldSource::Literal(v) => Ok(v.duplicate()),
        FieldSource::Coalesce(c) => {
            let ghost ps = c.paths@;
            let mut i: usize = 0;
            assert(ps.skip(0) =~= ps);
            while i < c.paths.len()
                invariant
                    ps == c.paths@,
                    i <= ps.len(),
                    source_value(*src, input@) == coalesce_paths(ps, input@),
                    coalesce_paths(ps.skip(i as int), input@) == coalesce_paths(ps, input@),
                decreases ps.len() - i,
            {
                assert(ps.skip(i as int)[0] == ps[i as int]);
                assert(ps.skip(i as int).drop_first() =~= ps.skip(i + 1));
                match extract_path(c.paths[i].as_str(), input) {
                    Err(e) => {
                        return Err(e);
                    },
                    Ok(v) => {
                        match v {
                            JsonValue::Null => {},
                            other => {
                                return Ok(other);
                            },
                        }
                    },
                }
                i = i + 1;
            }
            Ok(JsonValue::Null)
        },
        FieldSource::Template(t) => {
            let ghost vs = t.vars@;
            let mut vals: Vec<(String, String)> = Vec::new();
            let mut i: usize = 0;
            assert(vs.take(0) =~= Seq::<(String, String)>::empty());
            assert(vals@.map_values(|v: (String, String)| (v.0@, v.1@)) =~= Seq::<(Seq<char>, Seq<char>)>::empty());
            while i < t.vars.len()
                invariant
                    vs == t.vars@,
                    i <= vs.len(),
                    source_value(*src, input@) == match template_values(vs, input@) {
                        Err(e) => Err(e),
                        Ok(x) => Ok(JsonView::String(spec_fill(t.template@, x))),
                    },
                    template_values(vs.take(i as int), input@) == Ok::<Seq<(Seq<char>, Seq<char>)>, Seq<char>>(
                        vals@.map_values(|v: (String, String)| (v.0@, v.1@)),
                    ),
                decreases vs.len() - i,
            {
                assert(vs.take(i + 1).drop_last() =~= vs.take(i as int));
                assert(vs.take(i + 1).last() == vs[i as int]);
                match extract_path(t.vars[i].1.as_str(), input) {
                    Err(e) => {
                        proof {
                            lemma_template_err_stays(vs, input@, i as int + 1);
                        }
                        return Err(e);
                    },
                    Ok(v) => {
                        let text = render(&v);
                        let ghost before = vals@;
                        vals.push((t.vars[i].0.clone(), text));
                        assert(vals@.map_values(|v: (String, String)| (v.0@, v.1@)) =~= before.map_values(
                            |v: (String, String)| (v.0@, v.1@),
                        ).push((vs[i as int].0@, rendered(v@))));
                    },
                }
                i = i + 1;
            }
            assert(vs.take(vs.len() as int) =~= vs);
            Ok(JsonValue::String(SchemaMapExecutor::template(&t.template, &vals)))
        },
        FieldSource::Concat(c) => {
            let ghost ps = c.paths@;
            let mut parts: Vec<Option<String>> = Vec::new();
            let mut i: usize = 0;
            assert(ps.take(0) =~= Seq::<String>::empty());
            assert(parts@.map_values(|p: Option<String>| match p { Some(s) => Some(s@), None => None })
                =~= Seq::<Option<Seq<char>>>::empty());
            while i < c.paths.len()
                invariant
                    ps == c.paths@,
                    i <= ps.len(),
                    source_value(*src, input@) == match concat_parts(ps, input@) {
                        Err(e) => Err(e),
                        Ok(x) => Ok(JsonView::String(spec_join(x, match c.separator {
                            Some(sep) => sep@,
                            None => Seq::empty(),
                        }))),
                    },
                    concat_parts(ps.take(i as int), input@) == Ok::<Seq<Option<Seq<char>>>, Seq<char>>(
                        parts@.map_values(|p: Option<String>| match p { Some(s) => Some(s@), None => None }),
                    ),
                decreases ps.len() - i,
            {
                assert(ps.take(i + 1).drop_last() =~= ps.take(i as int));
                assert(ps.take(i + 1).last() == ps[i as int]);
                match extract_path(c.paths[i].as_str(), input) {
                    Err(e) => {
                        proof {
                            lemma_concat_err_stays(ps, input@, i as int + 1);
                        }
                        return Err(e);
                    },
                    Ok(v) => {
                        let part = match v {
                            JsonValue::Null => None,
                            other => Some(render(&other)),
                        };
                        let ghost before = parts@;
                        parts.push(part);
                        assert(parts@.map_values(|p: Option<String>| match p { Some(s) => Some(s@), None => None })
                            =~= before.map_values(|p: Option<String>| match p { Some(s) => Some(s@), None => None }).push(
                            concat_part(v@),
                        ));
                    },
                }
                i = i + 1;
            }
            assert(ps.take(ps.len() as int) =~= ps);
            Ok(JsonValue::String(SchemaMapExecutor::concat(&parts, c.separator.as_ref())))
        },
        FieldSource::Nested(b) => SchemaMapExecutor::execute(b, input),
    }
}

/// A value as a template renders it (see `rendered`).
fn render(v: &JsonValue) -> (r: String)
    ensures
        r@ == rendered(v@),
{
    match v {
        JsonValue::String(s) => s.clone(),
        JsonValue::Null => String::new(),
        _ => json_compact(v),
    }
}

impl SchemaMapExecutor {
    /// Runs a schema map on an input: the object of each mapped field with its
    /// value, in order; the first JSONPath error instead.
    pub fn execute(spec: &SchemaMapSpec, input: &JsonValue) -> (r: Result<JsonValue, ExecutionError>)
        ensures
            same_outcome(r, spec_schema_map(spec.mappings@, input@)),
        decreases spec, 1int,
    {
        let ghost ms = spec.mappings@;
        let mut out: Vec<(String, JsonValue)> = Vec::new();
        let mut i: usize = 0;
        assert(ms.take(0) =~= Seq::<(String, FieldSource)>::empty());
        assert(crate::json::members_view(out@) =~= Seq::<(Seq<char>, JsonView)>::empty());
        while i < spec.mappings.len()
            invariant
                ms == spec.mappings@,
                i <= ms.len(),
                mapped_fields(ms.take(i as int), input@) == Ok::<Seq<(Seq<char>, JsonView)>, Seq<char>>(
                    crate::json::members_view(out@),
                ),
            decreases ms.len() - i,
        {
            assert(ms.take(i + 1).drop_last() =~= ms.take(i as int));
            assert(ms.take(i + 1).last() == ms[i as int]);
            match extract_source(&spec.mappings[i].1, input) {
                Err(e) => {
                    proof {
                        lemma_mapped_err_stays(ms, input@, i as int + 1);
                    }
                    return Err(e);
                },
                Ok(v) => {
                    let ghost before = out@;
                    out.push((spec.mappings[i].0.clone(), v));
                    assert(crate::json::members_view(out@) =~= crate::json::members_view(before).push(
                        (ms[i as int].0@, v@),
                    ));
                },
            }
            i = i + 1;
        }
        assert(ms.take(ms.len() as int) =~= ms);
        Ok(JsonValue::Object(out))
    }
}

} // verus!

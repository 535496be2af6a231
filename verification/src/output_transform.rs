//! Output transforms: the fields of a tool's answer, each taken from a source in
//! the backend's answer. A field named `base[*].item` maps `item` onto every
//! element of the array field `base`.
//!
//! The caller evaluates the sources (JSONPath queries); the library groups the
//! field names and builds the transformed answer.
use vstd::prelude::*;
use crate::json::{JsonValue, JsonView, members_view, spec_insert, object_insert, group_json_view};
use crate::text::{str_to_chars, slice_to_string, strings_view, contains_name};

verus! {

broadcast use group_json_view;

/// Whether the marker starts at `i` in `s`.
pub open spec fn marker_at(s: Seq<char>, i: int) -> bool {
    &&& 0 <= i && i + 4 <= s.len()
    &&& s[i] == '[' && s[i + 1] == '*' && s[i + 2] == ']' && s[i + 3] == '.'
}

/// An item field name split at its first marker into (array field, item field).
#[verifier::opaque]
pub open spec fn item_split(s: Seq<char>) -> Option<(Seq<char>, Seq<char>)> {
    if exists|i: int| marker_at(s, i) {
        let i = choose|i: int| marker_at(s, i) && forall|j: int| 0 <= j < i ==> !marker_at(s, j);
        Some((s.take(i), s.skip(i + 4)))
    } else {
        None
    }
}

proof fn lemma_item_split_at(s: Seq<char>, i: int)
    requires
        marker_at(s, i),
        forall|j: int| 0 <= j < i ==> !marker_at(s, j),
    ensures
        item_split(s) == Some((s.take(i), s.skip(i + 4))),
{
    reveal(item_split);
    let k = choose|k: int| marker_at(s, k) && forall|j: int| 0 <= j < k ==> !marker_at(s, j);
    if k < i {
    } else if k > i {
        assert(marker_at(s, i));
    }
}

/// Splits an item field name such as `repos[*].name` into `("repos", "name")`;
/// `None` for a plain field name.
pub fn split_array_item(name: &str) -> (r: Option<(String, String)>)
    ensures
        match item_split(name@) {
            Some((a, b)) => r matches Some((x, y)) && x@ == a && y@ == b,
            None => r is None,
        },
{
    let v = str_to_chars(name);
    let ghost s = v@;
    let len = v.len();
    if len < 4 {
        proof {
            reveal(item_split);
            assert forall|j: int| !marker_at(s, j) by {}
        }
        return None;
    }
    let mut i: usize = 0;
    while i <= len - 4
        invariant
            s == v@,
            s == name@,
            len == s.len(),
            4 <= len,
            i <= len - 3,
            forall|j: int| 0 <= j < i ==> !marker_at(s, j),
        decreases len - i,
    {
        if v[i] == '[' && v[i + 1] == '*' && v[i + 2] == ']' && v[i + 3] == '.' {
            assert(marker_at(s, i as int));
            proof {
                lemma_item_split_at(s, i as int);
            }
            let a = slice_to_string(v.as_slice(), 0, i);
            let b = slice_to_string(v.as_slice(), i + 4, len);
            assert(a@ =~= s.take(i as int));
            assert(b@ =~= s.skip(i + 4));
            return Some((a, b));
        }
        i = i + 1;
    }
    proof {
        reveal(item_split);
        assert forall|j: int| !marker_at(s, j) by {
            if 0 <= j && j + 4 <= s.len() {
                assert(j < i);
            }
        }
    }
    None
}

/// Indices of the plain (not item) field names, in order.
pub open spec fn base_indices(names: Seq<Seq<char>>) -> Seq<int>
    decreases names.len(),
{
    if names.len() == 0 {
        Seq::empty()
    } else {
        let rest = base_indices(names.drop_last());
        if item_split(names.last()) is None {
            rest.push(names.len() - 1)
        } else {
            rest
        }
    }
}

/// The item fields mapped onto the array field `base`, with the indices of their
/// names, in order.
pub open spec fn items_of(names: Seq<Seq<char>>, base: Seq<char>) -> Seq<(Seq<char>, int)>
    decreases names.len(),
{
    if names.len() == 0 {
        Seq::empty()
    } else {
        let rest = items_of(names.drop_last(), base);
        match item_split(names.last()) {
            Some((a, b)) => if a == base {
                rest.push((b, names.len() - 1))
            } else {
                rest
            },
            None => rest,
        }
    }
}

/// The array fields that item fields name but that no plain field defines, each
/// once, in order of first mention.
pub open spec fn orphan_arrays(names: Seq<Seq<char>>, all: Seq<Seq<char>>) -> Seq<Seq<char>>
    decreases names.len(),
{
    if names.len() == 0 {
        Seq::empty()
    } else {
        let rest = orphan_arrays(names.drop_last(), all);
        match item_split(names.last()) {
            Some((a, _)) => if all.contains(a) || rest.contains(a) {
                rest
            } else {
                rest.push(a)
            },
            None => rest,
        }
    }
}

/// A plain field and the item fields mapped onto its elements.
#[derive(Debug, PartialEq, Eq)]
pub struct BaseMapping {
    /// Index of the field's name.
    pub index: usize,
    /// (item field, index of its name) pairs, in order.
    pub items: Vec<(String, usize)>,
}

/// The field names of an output transform, grouped.
#[derive(Debug, PartialEq, Eq)]
pub struct MappingGroups {
    /// The plain fields, in order.
    pub base: Vec<BaseMapping>,
    /// Array fields that only item fields name.
    pub orphans: Vec<String>,
}

pub open spec fn item_fields_view(items: Seq<(String, usize)>) -> Seq<(Seq<char>, int)> {
    items.map_values(|p: (String, usize)| (p.0@, p.1 as int))
}

fn items_for(names: &Vec<String>, base: &str) -> (r: Vec<(String, usize)>)
    ensures
        item_fields_view(r@) == items_of(strings_view(names@), base@),
{
    let ghost nv = strings_view(names@);
    let mut out: Vec<(String, usize)> = Vec::new();
    let mut j: usize = 0;
    assert(nv.take(0) =~= Seq::<Seq<char>>::empty());
    assert(item_fields_view(out@) =~= Seq::<(Seq<char>, int)>::empty());
    while j < names.len()
        invariant
            j <= names@.len(),
            nv == strings_view(names@),
            item_fields_view(out@) == items_of(nv.take(j as int), base@),
        decreases names@.len() - j,
    {
        assert(nv.take(j + 1).drop_last() =~= nv.take(j as int));
        assert(nv.take(j + 1).last() == names@[j as int]@);
        match split_array_item(names[j].as_str()) {
            Some((a, b)) => {
                if crate::text::str_eq(a.as_str(), base) {
                    let ghost before = out@;
                    out.push((b, j));
                    assert(item_fields_view(out@) =~= item_fields_view(before).push((b@, j as int)));
                }
            },
            None => {},
        }
        j = j + 1;
    }
    assert(nv.take(names@.len() as int) =~= nv);
    out
}

/// Groups the field names of an output transform: the plain fields, in order, each
/// with the item fields (`base[*].item`) mapped onto its elements; and the array
/// fields that only item fields name.
pub fn group_mappings(names: &Vec<String>) -> (r: MappingGroups)
    ensures
        r.base@.map_values(|b: BaseMapping| b.index as int) == base_indices(strings_view(names@)),
        forall|k: int|
            0 <= k < r.base@.len() ==> item_fields_view((#[trigger] r.base@[k]).items@) == items_of(
                strings_view(names@),
                names@[r.base@[k].index as int]@,
            ),
        strings_view(r.orphans@) == orphan_arrays(strings_view(names@), strings_view(names@)),
{
    let ghost nv = strings_view(names@);
    let mut base: Vec<BaseMapping> = Vec::new();
    let mut orphans: Vec<String> = Vec::new();
    let mut j: usize = 0;
    assert(nv.take(0) =~= Seq::<Seq<char>>::empty());
    assert(base@.map_values(|b: BaseMapping| b.index as int) =~= Seq::<int>::empty());
    assert(strings_view(orphans@) =~= Seq::<Seq<char>>::empty());
    while j < names.len()
        invariant
            j <= names@.len(),
            nv == strings_view(names@),
            base@.map_values(|b: BaseMapping| b.index as int) == base_indices(nv.take(j as int)),
            forall|k: int|
                0 <= k < base@.len() ==> (#[trigger] base@[k]).index < names@.len() && item_fields_view(base@[k].items@)
                    == items_of(nv, names@[base@[k].index as int]@),
            strings_view(orphans@) == orphan_arrays(nv.take(j as int), nv),
        decreases names@.len() - j,
    {
        assert(nv.take(j + 1).drop_last() =~= nv.take(j as int));
        assert(nv.take(j + 1).last() == names@[j as int]@);
        match split_array_item(names[j].as_str()) {
            None => {
                let items = items_for(names, names[j].as_str());
                let ghost before = base@;
                base.push(BaseMapping { index: j, items });
                assert(base@.map_values(|b: BaseMapping| b.index as int) =~= before.map_values(
                    |b: BaseMapping| b.index as int,
                ).push(j as int));
            },
            Some((a, _)) => {
                let known = contains_name(names, a.as_str()) || contains_name(&orphans, a.as_str());
                if !known {
                    let ghost before = orphans@;
                    orphans.push(a);
                    assert(strings_view(orphans@) =~= strings_view(before).push(a@));
                }
            },
        }
        j = j + 1;
    }
    assert(nv.take(names@.len() as int) =~= nv);
    MappingGroups { base, orphans }
}

/// The object of an array element: each item field set to its value, in order.
pub open spec fn spec_item_object(fields: Seq<Seq<char>>, values: Seq<JsonView>) -> Seq<(Seq<char>, JsonView)>
    decreases fields.len(),
{
    if fields.len() == 0 || values.len() < fields.len() {
        Seq::empty()
    } else {
        spec_insert(
            spec_item_object(fields.drop_last(), values.take(fields.len() - 1)),
            fields.last(),
            values[fields.len() - 1],
        )
    }
}

/// The transformed answer: each plain field set to its value, in order, then each
/// array field that only item fields name set to `null` unless already set.
pub open spec fn spec_output(fields: Seq<(Seq<char>, JsonView)>, orphans: Seq<Seq<char>>) -> Seq<(Seq<char>, JsonView)>
    decreases orphans.len(),
{
    if orphans.len() == 0 {
        insert_each(Seq::empty(), fields)
    } else {
        let acc = spec_output(fields, orphans.drop_last());
        if crate::json::find_key(acc, orphans.last()) is Some {
            acc
        } else {
            acc.push((orphans.last(), JsonView::Null))
        }
    }
}

/// `members` with each of `kvs` set in turn.
pub open spec fn insert_each(
    members: Seq<(Seq<char>, JsonView)>,
    kvs: Seq<(Seq<char>, JsonView)>,
) -> Seq<(Seq<char>, JsonView)>
    decreases kvs.len(),
{
    if kvs.len() == 0 {
        members
    } else {
        spec_insert(insert_each(members, kvs.drop_last()), kvs.last().0, kvs.last().1)
    }
}

/// The object of one array element from the values of the item fields.
pub fn item_object(fields: &Vec<String>, values: Vec<JsonValue>) -> (r: JsonValue)
    requires
        values@.len() == fields@.len(),
    ensures
        r@ == JsonView::Object(spec_item_object(strings_view(fields@), crate::json::items_view(values@))),
{
    let ghost fv = strings_view(fields@);
    let ghost vv = crate::json::items_view(values@);
    let mut members: Vec<(String, JsonValue)> = Vec::new();
    let mut i: usize = 0;
    assert(members_view(members@) =~= Seq::<(Seq<char>, JsonView)>::empty());
    while i < fields.len()
        invariant
            i <= fields@.len(),
            values@.len() == fields@.len(),
            fv == strings_view(fields@),
            vv == crate::json::items_view(values@),
            members_view(members@) == spec_item_object(fv.take(i as int), vv.take(i as int)),
        decreases fields@.len() - i,
    {
        assert(fv.take(i + 1).drop_last() =~= fv.take(i as int));
        assert(vv.take(i + 1).take(i as int) =~= vv.take(i as int));
        object_insert(&mut members, fields[i].clone(), values[i].duplicate());
        i = i + 1;
    }
    assert(fv.take(fields@.len() as int) =~= fv);
    assert(vv.take(fields@.len() as int) =~= vv);
    JsonValue::Object(members)
}

/// The transformed answer from the values of its plain fields (in order) and the
/// array fields that only item fields name.
pub fn assemble_output(fields: Vec<(String, JsonValue)>, orphans: &Vec<String>) -> (r: JsonValue)
    ensures
        r@ == JsonView::Object(spec_output(members_view(fields@), strings_view(orphans@))),
{
    let ghost fv = members_view(fields@);
    let ghost ov = strings_view(orphans@);
    let mut members: Vec<(String, JsonValue)> = Vec::new();
    let mut i: usize = 0;
    assert(fv.take(0) =~= Seq::<(Seq<char>, JsonView)>::empty());
    assert(members_view(members@) =~= Seq::<(Seq<char>, JsonView)>::empty());
    while i < fields.len()
        invariant
            i <= fields@.len(),
            fv == members_view(fields@),
            members_view(members@) == insert_each(Seq::empty(), fv.take(i as int)),
        decreases fields@.len() - i,
    {
        assert(fv.take(i + 1).drop_last() =~= fv.take(i as int));
        assert(fv.take(i + 1).last() == fv[i as int]);
        object_insert(&mut members, fields[i].0.clone(), fields[i].1.duplicate());
        i = i + 1;
    }
    assert(fv.take(fields@.len() as int) =~= fv);
    let mut k: usize = 0;
    assert(ov.take(0) =~= Seq::<Seq<char>>::empty());
    while k < orphans.len()
        invariant
            k <= orphans@.len(),
            fv == members_view(fields@),
            ov == strings_view(orphans@),
            members_view(members@) == spec_output(fv, ov.take(k as int)),
        decreases orphans@.len() - k,
    {
        assert(ov.take(k + 1).drop_last() =~= ov.take(k as int));
        assert(ov.take(k + 1).last() == orphans@[k as int]@);
        match crate::json::position_of_key(&members, orphans[k].as_str()) {
            Some(_) => {},
            None => {
                let ghost before = members@;
                members.push((orphans[k].clone(), JsonValue::Null));
                assert(members_view(members@) =~= members_view(before).push((orphans@[k as int]@, JsonView::Null)));
            },
        }
        k = k + 1;
    }
    assert(ov.take(orphans@.len() as int) =~= ov);
    JsonValue::Object(members)
}

} // verus!

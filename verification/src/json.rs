//! JSON values as the library reads and builds them.
//!
//! A value is reasoned about through its view, a `JsonView`, in which strings are
//! `Seq<char>` and arrays and objects are sequences. Objects keep their members in
//! order, as (key, value) pairs.
use vstd::prelude::*;
use crate::text::str_eq;

verus! {

/// A JSON number: a non-negative integer, a negative integer, or any other number
/// given by its decimal text.
#[derive(Debug, PartialEq)]
pub enum JsonNumber {
    PosInt(u64),
    NegInt(i64),
    Float(String),
}

/// A JSON value.
#[derive(Debug, PartialEq)]
pub enum JsonValue {
    Null,
    Bool(bool),
    Number(JsonNumber),
    String(String),
    Array(Vec<JsonValue>),
    Object(Vec<(String, JsonValue)>),
}

/// Mathematical view of a JSON number.
pub enum NumberView {
    PosInt(u64),
    NegInt(i64),
    Float(Seq<char>),
}

/// Mathematical view of a JSON value.
pub enum JsonView {
    Null,
    Bool(bool),
    Number(NumberView),
    String(Seq<char>),
    Array(Seq<JsonView>),
    Object(Seq<(Seq<char>, JsonView)>),
}

impl View for JsonNumber {
    type V = NumberView;

    open spec fn view(&self) -> NumberView {
        match *self {
            JsonNumber::PosInt(n) => NumberView::PosInt(n),
            JsonNumber::NegInt(n) => NumberView::NegInt(n),
            JsonNumber::Float(t) => NumberView::Float(t@),
        }
    }
}

/// View of a value: strings by their characters, arrays and objects as sequences.
pub open spec fn json_view(v: JsonValue) -> JsonView
    decreases v,
{
    match v {
        JsonValue::Null => JsonView::Null,
        JsonValue::Bool(b) => JsonView::Bool(b),
        JsonValue::Number(n) => JsonView::Number(n@),
        JsonValue::String(s) => JsonView::String(s@),
        JsonValue::Array(items) => JsonView::Array(
            Seq::new(
                items.len() as nat,
                |i: int|
                    if 0 <= i < items.len() {
                        json_view(items[i])
                    } else {
                        JsonView::Null
                    },
            ),
        ),
        JsonValue::Object(members) => JsonView::Object(
            Seq::new(
                members.len() as nat,
                |i: int|
                    if 0 <= i < members.len() {
                        (members[i].0@, json_view(members[i].1))
                    } else {
                        (Seq::empty(), JsonView::Null)
                    },
            ),
        ),
    }
}

impl View for JsonValue {
    type V = JsonView;

    open spec fn view(&self) -> JsonView {
        json_view(*self)
    }
}

/// View of the members of an object.
pub open spec fn members_view(members: Seq<(String, JsonValue)>) -> Seq<(Seq<char>, JsonView)> {
    members.map_values(|m: (String, JsonValue)| (m.0@, m.1@))
}

/// View of the items of an array.
pub open spec fn items_view(items: Seq<JsonValue>) -> Seq<JsonView> {
    items.map_values(|x: JsonValue| x@)
}

/// Name of the JSON type of a value, as used in error messages.
pub open spec fn spec_kind_name(v: JsonView) -> Seq<char> {
    match v {
        JsonView::Null => "null"@,
        JsonView::Bool(_) => "boolean"@,
        JsonView::Number(_) => "number"@,
        JsonView::String(_) => "string"@,
        JsonView::Array(_) => "array"@,
        JsonView::Object(_) => "object"@,
    }
}

/// Index of the first member whose key is `key`, if any.
pub open spec fn find_key(members: Seq<(Seq<char>, JsonView)>, key: Seq<char>) -> Option<int>
    decreases members.len(),
{
    if members.len() == 0 {
        None
    } else if members.last().0 == key && find_key(members.drop_last(), key) is None {
        Some(members.len() - 1)
    } else {
        find_key(members.drop_last(), key)
    }
}

/// The value under `key` of an object view (the first member with that key).
pub open spec fn spec_get(v: JsonView, key: Seq<char>) -> Option<JsonView> {
    match v {
        JsonView::Object(members) => match find_key(members, key) {
            Some(i) => Some(members[i].1),
            None => None,
        },
        _ => None,
    }
}

/// Members after setting `key` to `value`: the first member of that key is replaced
/// in place, or a new member is appended.
pub open spec fn spec_insert(
    members: Seq<(Seq<char>, JsonView)>,
    key: Seq<char>,
    value: JsonView,
) -> Seq<(Seq<char>, JsonView)> {
    match find_key(members, key) {
        Some(i) => members.update(i, (key, value)),
        None => members.push((key, value)),
    }
}

/// `find_key` finds the first member of the key.
pub proof fn lemma_find_key(members: Seq<(Seq<char>, JsonView)>, key: Seq<char>)
    ensures
        match find_key(members, key) {
            Some(i) => 0 <= i < members.len() && members[i].0 == key && forall|j: int|
                0 <= j < i ==> members[j].0 != key,
            None => forall|j: int| 0 <= j < members.len() ==> members[j].0 != key,
        },
    decreases members.len(),
{
    if members.len() > 0 {
        let init = members.drop_last();
        lemma_find_key(init, key);
        assert forall|j: int| 0 <= j < init.len() implies init[j] == members[j] by {}
    }
}

/// The first member of the key, described by index.
pub proof fn lemma_find_key_at(members: Seq<(Seq<char>, JsonView)>, key: Seq<char>, i: int)
    requires
        0 <= i < members.len(),
        members[i].0 == key,
        forall|j: int| 0 <= j < i ==> members[j].0 != key,
    ensures
        find_key(members, key) == Some(i),
    decreases members.len(),
{
    lemma_find_key(members, key);
    if i < members.len() - 1 {
        lemma_find_key_at(members.drop_last(), key, i);
    }
}

proof fn lemma_view_array(items: Vec<JsonValue>)
    ensures
        json_view(JsonValue::Array(items)) == JsonView::Array(items_view(items@)),
{
    let s = match json_view(JsonValue::Array(items)) {
        JsonView::Array(s) => s,
        _ => Seq::empty(),
    };
    assert(s =~= items_view(items@));
}

proof fn lemma_view_object(members: Vec<(String, JsonValue)>)
    ensures
        json_view(JsonValue::Object(members)) == JsonView::Object(members_view(members@)),
{
    let s = match json_view(JsonValue::Object(members)) {
        JsonView::Object(s) => s,
        _ => Seq::empty(),
    };
    assert(s =~= members_view(members@));
}

/// The view of an array is the views of its items.
pub broadcast proof fn lemma_array_view(items: Vec<JsonValue>)
    ensures
        #[trigger] JsonValue::Array(items)@ == JsonView::Array(items_view(items@)),
{
    lemma_view_array(items);
}

/// The view of an object is the views of its members.
pub broadcast proof fn lemma_object_view(members: Vec<(String, JsonValue)>)
    ensures
        #[trigger] JsonValue::Object(members)@ == JsonView::Object(members_view(members@)),
{
    lemma_view_object(members);
}

/// Viewing commutes with appending an item.
pub proof fn lemma_items_view_push(s: Seq<JsonValue>, x: JsonValue)
    ensures
        items_view(s.push(x)) == items_view(s).push(x@),
{
    assert(items_view(s.push(x)) =~= items_view(s).push(x@));
}

/// Viewing commutes with appending a member.
pub proof fn lemma_members_view_push(s: Seq<(String, JsonValue)>, m: (String, JsonValue))
    ensures
        members_view(s.push(m)) == members_view(s).push((m.0@, m.1@)),
{
    assert(members_view(s.push(m)) =~= members_view(s).push((m.0@, m.1@)));
}

pub broadcast group group_json_view {
    lemma_array_view,
    lemma_object_view,
}

impl JsonNumber {
    /// A copy of this number.
    pub fn duplicate(&self) -> (r: JsonNumber)
        ensures
            r@ == self@,
    {
        match self {
            JsonNumber::PosInt(n) => JsonNumber::PosInt(*n),
            JsonNumber::NegInt(n) => JsonNumber::NegInt(*n),
            JsonNumber::Float(t) => JsonNumber::Float(t.clone()),
        }
    }
}

impl JsonValue {
    /// A copy of this value.
    pub fn duplicate(&self) -> (r: JsonValue)
        ensures
            r@ == self@,
        decreases self,
    {
        broadcast use group_json_view;

        match self {
            JsonValue::Null => JsonValue::Null,
            JsonValue::Bool(b) => JsonValue::Bool(*b),
            JsonValue::Number(n) => JsonValue::Number(n.duplicate()),
            JsonValue::String(s) => JsonValue::String(s.clone()),
            JsonValue::Array(items) => {
                let mut out: Vec<JsonValue> = Vec::new();
                let mut i: usize = 0;
                while i < items.len()
                    invariant
                        i <= items@.len(),
                        *self == JsonValue::Array(*items),
                        items_view(out@) == items_view(items@).take(i as int),
                    decreases items@.len() - i,
                {
                    assert(decreases_to!(*self => (*self)->Array_0));
                    assert(decreases_to!(*items => items[i as int]));
                    let x = items[i].duplicate();
                    let ghost xv = x@;
                    let ghost prev = out@;
                    out.push(x);
                    proof {
                        lemma_items_view_push(prev, x);
                        assert(xv == items_view(items@)[i as int]);
                        assert(items_view(items@).take(i + 1) =~= items_view(items@).take(
                            i as int,
                        ).push(xv));
                    }
                    i = i + 1;
                }
                assert(items_view(out@) =~= items_view(items@));
                JsonValue::Array(out)
            },
            JsonValue::Object(members) => {
                let mut out: Vec<(String, JsonValue)> = Vec::new();
                let mut i: usize = 0;
                while i < members.len()
                    invariant
                        i <= members@.len(),
                        *self == JsonValue::Object(*members),
                        members_view(out@) == members_view(members@).take(i as int),
                    decreases members@.len() - i,
                {
                    assert(decreases_to!(*self => (*self)->Object_0));
                    assert(decreases_to!(*members => members[i as int]));
                    assert(decreases_to!(members[i as int] => members[i as int].1));
                    let v = members[i].1.duplicate();
                    let k = members[i].0.clone();
                    let ghost prev = out@;
                    let ghost pair = (k, v);
                    out.push((k, v));
                    proof {
                        lemma_members_view_push(prev, pair);
                        assert((pair.0@, pair.1@) == members_view(members@)[i as int]);
                        assert(members_view(members@).take(i + 1) =~= members_view(
                            members@,
                        ).take(i as int).push((pair.0@, pair.1@)));
                    }
                    i = i + 1;
                }
                assert(members_view(out@) =~= members_view(members@));
                JsonValue::Object(out)
            },
        }
    }

    /// Whether this value is `null`.
    pub fn is_null(&self) -> (r: bool)
        ensures
            r == (self@ == JsonView::Null),
    {
        match self {
            JsonValue::Null => true,
            _ => false,
        }
    }

    /// Whether two values are equal: same kind, equal scalars, equal items in
    /// order, equal members in order.
    pub fn equals(&self, other: &JsonValue) -> (r: bool)
        ensures
            r == (self@ == other@),
        decreases self,
    {
        broadcast use group_json_view;

        match (self, other) {
            (JsonValue::Null, JsonValue::Null) => true,
            (JsonValue::Bool(a), JsonValue::Bool(b)) => *a == *b,
            (JsonValue::Number(a), JsonValue::Number(b)) => match (a, b) {
                (JsonNumber::PosInt(x), JsonNumber::PosInt(y)) => *x == *y,
                (JsonNumber::NegInt(x), JsonNumber::NegInt(y)) => *x == *y,
                (JsonNumber::Float(x), JsonNumber::Float(y)) => x.eq(y),
                _ => false,
            },
            (JsonValue::String(a), JsonValue::String(b)) => a.eq(b),
            (JsonValue::Array(xs), JsonValue::Array(ys)) => {
                if xs.len() != ys.len() {
                    assert(items_view(xs@).len() != items_view(ys@).len());
                    return false;
                }
                let mut i: usize = 0;
                while i < xs.len()
                    invariant
                        i <= xs@.len(),
                        xs@.len() == ys@.len(),
                        *self == JsonValue::Array(*xs),
                        *other == JsonValue::Array(*ys),
                        forall|k: int| 0 <= k < i ==> xs@[k]@ == ys@[k]@,
                    decreases xs@.len() - i,
                {
                    assert(decreases_to!(*self => (*self)->Array_0));
                    assert(decreases_to!(*xs => xs[i as int]));
                    if !xs[i].equals(&ys[i]) {
                        assert(items_view(xs@)[i as int] != items_view(ys@)[i as int]);
                        proof {
                            lemma_array_view(*xs);
                            lemma_array_view(*ys);
                        }
                        return false;
                    }
                    i = i + 1;
                }
                assert(items_view(xs@) =~= items_view(ys@));
                true
            },
            (JsonValue::Object(xs), JsonValue::Object(ys)) => {
                if xs.len() != ys.len() {
                    assert(members_view(xs@).len() != members_view(ys@).len());
                    return false;
                }
                let mut i: usize = 0;
                while i < xs.len()
                    invariant
                        i <= xs@.len(),
                        xs@.len() == ys@.len(),
                        *self == JsonValue::Object(*xs),
                        *other == JsonValue::Object(*ys),
                        forall|k: int| 0 <= k < i ==> xs@[k].0@ == ys@[k].0@ && xs@[k].1@ == ys@[k].1@,
                    decreases xs@.len() - i,
                {
                    assert(decreases_to!(*self => (*self)->Object_0));
                    assert(decreases_to!(*xs => xs[i as int]));
                    assert(decreases_to!(xs[i as int] => xs[i as int].1));
                    if !xs[i].0.eq(&ys[i].0) || !xs[i].1.equals(&ys[i].1) {
                        assert(members_view(xs@)[i as int] != members_view(ys@)[i as int]);
                        proof {
                            lemma_object_view(*xs);
                            lemma_object_view(*ys);
                        }
                        return false;
                    }
                    i = i + 1;
                }
                assert(members_view(xs@) =~= members_view(ys@));
                true
            },
            _ => false,
        }
    }

    /// Name of the JSON type of this value.
    pub fn kind_name(&self) -> (r: String)
        ensures
            r@ == spec_kind_name(self@),
    {
        match self {
            JsonValue::Null => "null".to_owned(),
            JsonValue::Bool(_) => "boolean".to_owned(),
            JsonValue::Number(_) => "number".to_owned(),
            JsonValue::String(_) => "string".to_owned(),
            JsonValue::Array(_) => "array".to_owned(),
            JsonValue::Object(_) => "object".to_owned(),
        }
    }

    /// The value under `key`, when this value is an object holding that key.
    pub fn get(&self, key: &str) -> (r: Option<&JsonValue>)
        ensures
            r matches Some(x) ==> spec_get(self@, key@) == Some(x@),
            r is None ==> spec_get(self@, key@) is None,
    {
        broadcast use group_json_view;

        match self {
            JsonValue::Object(members) => match position_of_key(members, key) {
                Some(i) => Some(&members[i].1),
                None => None,
            },
            _ => None,
        }
    }
}

/// Index of the first member whose key is `key`.
pub fn position_of_key(members: &Vec<(String, JsonValue)>, key: &str) -> (r: Option<usize>)
    ensures
        r matches Some(i) ==> i < members@.len(),
        match r {
            Some(i) => find_key(members_view(members@), key@) == Some(i as int),
            None => find_key(members_view(members@), key@) is None,
        },
{
    let ghost mv = members_view(members@);
    let mut i: usize = 0;
    while i < members.len()
        invariant
            i <= members@.len(),
            mv == members_view(members@),
            forall|j: int| 0 <= j < i ==> mv[j].0 != key@,
        decreases members@.len() - i,
    {
        if str_eq(members[i].0.as_str(), key) {
            proof {
                lemma_find_key_at(mv, key@, i as int);
            }
            return Some(i);
        }
        i = i + 1;
    }
    proof {
        lemma_find_key(mv, key@);
        if find_key(mv, key@) is Some {
            let k = find_key(mv, key@)->0;
            assert(mv[k].0 == key@);
        }
    }
    None
}

/// Sets `key` to `value` among the members: replaces the first member of that key,
/// or appends one.
pub fn object_insert(members: &mut Vec<(String, JsonValue)>, key: String, value: JsonValue)
    ensures
        members_view(final(members)@) == spec_insert(members_view(old(members)@), key@, value@),
{
    match position_of_key(members, key.as_str()) {
        Some(i) => {
            let ghost k = key@;
            let ghost v = value@;
            members.set(i, (key, value));
            assert(members_view(members@) =~= members_view(old(members)@).update(
                i as int,
                (k, v),
            ));
        },
        None => {
            let ghost k = key@;
            let ghost v = value@;
            members.push((key, value));
            assert(members_view(members@) =~= members_view(old(members)@).push((k, v)));
        },
    }
}

/// Reading a key back after setting it gives the value set; other keys keep
/// their values.
pub proof fn law_get_after_insert(members: Seq<(Seq<char>, JsonView)>, key: Seq<char>, value: JsonView, other: Seq<char>)
    ensures
        spec_get(JsonView::Object(spec_insert(members, key, value)), key) == Some(value),
        other != key ==> spec_get(JsonView::Object(spec_insert(members, key, value)), other) == spec_get(
            JsonView::Object(members),
            other,
        ),
{
    let m2 = spec_insert(members, key, value);
    lemma_find_key(members, key);
    lemma_find_key(members, other);
    lemma_find_key(m2, key);
    lemma_find_key(m2, other);
    match find_key(members, key) {
        Some(i) => {
            assert(m2[i] == (key, value));
            lemma_find_key_at(m2, key, i);
            if other != key {
                match find_key(members, other) {
                    Some(o) => {
                        assert(m2[o] == members[o]);
                        lemma_find_key_at(m2, other, o);
                    },
                    None => {
                        assert forall|j: int| 0 <= j < m2.len() implies m2[j].0 != other by {
                            if j != i {
                                assert(m2[j] == members[j]);
                            }
                        }
                    },
                }
            }
        },
        None => {
            lemma_find_key_at(m2, key, members.len() as int);
            if other != key {
                match find_key(members, other) {
                    Some(o) => {
                        assert(m2[o] == members[o]);
                        lemma_find_key_at(m2, other, o);
                    },
                    None => {
                        assert forall|j: int| 0 <= j < m2.len() implies m2[j].0 != other by {
                            if j < members.len() {
                                assert(m2[j] == members[j]);
                            }
                        }
                    },
                }
            }
        },
    }
}

} // verus!

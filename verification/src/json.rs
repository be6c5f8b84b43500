//! JSON values as the library reads them: tool inputs, log records, chat messages.

use vstd::prelude::*;
use crate::rule::copy_string;
use crate::text::str_eq;

verus! {

/// A JSON value. Numbers keep the integer value they have, when they have one; for a number with
/// a fraction only the fact that it is one is kept.
#[derive(Debug)]
pub enum Json {
    Null,
    Bool(bool),
    /// A non-negative integer.
    PosInt(u64),
    /// A negative integer.
    NegInt(i64),
    /// A number with a fraction or an exponent.
    Float,
    Str(String),
    Array(Vec<Json>),
    /// Members in their order; no key occurs twice.
    Object(Vec<(String, Json)>),
}

/// The mathematical value of a JSON value.
pub enum JsonView {
    Null,
    Bool(bool),
    PosInt(u64),
    NegInt(i64),
    Float,
    Str(Seq<char>),
    Array(Seq<JsonView>),
    Object(Seq<(Seq<char>, JsonView)>),
}

/// The view of a JSON value.
pub open spec fn json_view(j: Json) -> JsonView
    decreases j, 2nat,
{
    match j {
        Json::Null => JsonView::Null,
        Json::Bool(b) => JsonView::Bool(b),
        Json::PosInt(u) => JsonView::PosInt(u),
        Json::NegInt(i) => JsonView::NegInt(i),
        Json::Float => JsonView::Float,
        Json::Str(s) => JsonView::Str(s@),
        Json::Array(v) => JsonView::Array(jsons_view(v@)),
        Json::Object(m) => JsonView::Object(members_view(m@)),
    }
}

/// The views of a list of values.
pub open spec fn jsons_view(v: Seq<Json>) -> Seq<JsonView>
    decreases v, 1nat,
{
    if v.len() == 0 {
        Seq::empty()
    } else {
        jsons_view(v.drop_last()).push(json_view(v.last()))
    }
}

/// The views of a list of members.
pub open spec fn members_view(m: Seq<(String, Json)>) -> Seq<(Seq<char>, JsonView)>
    decreases m, 1nat,
{
    if m.len() == 0 {
        Seq::empty()
    } else {
        members_view(m.drop_last()).push((m.last().0@, json_view(m.last().1)))
    }
}

impl View for Json {
    type V = JsonView;

    open spec fn view(&self) -> JsonView {
        json_view(*self)
    }
}

/// The position of the first member named `key`.
pub open spec fn member_index(m: Seq<(Seq<char>, JsonView)>, key: Seq<char>) -> Option<int>
    decreases m.len(),
{
    if m.len() == 0 {
        None
    } else {
        match member_index(m.drop_last(), key) {
            Some(i) => Some(i),
            None => if m.last().0 == key { Some(m.len() - 1) } else { None },
        }
    }
}

/// The value of the first member named `key`.
pub open spec fn member_get(m: Seq<(Seq<char>, JsonView)>, key: Seq<char>) -> Option<JsonView> {
    match member_index(m, key) {
        Some(i) => if 0 <= i < m.len() { Some(m[i].1) } else { None },
        None => None,
    }
}

/// The first member named `key` is where `member_index` says, and none before it has that name.
pub proof fn lemma_member_index(m: Seq<(Seq<char>, JsonView)>, key: Seq<char>)
    ensures
        match member_index(m, key) {
            Some(i) => 0 <= i < m.len() && m[i].0 == key,
            None => forall|j: int| 0 <= j < m.len() ==> m[j].0 != key,
        },
    decreases m.len(),
{
    if m.len() > 0 {
        lemma_member_index(m.drop_last(), key);
        assert forall|j: int| 0 <= j < m.len() - 1 implies m.drop_last()[j] == m[j] by {}
        match member_index(m.drop_last(), key) {
            Some(i) => { assert(m.drop_last()[i] == m[i]); },
            None => {},
        }
    }
}

/// serde_json's `Value::get` with a key: the member of an object, `None` for anything else.
pub open spec fn json_get(j: JsonView, key: Seq<char>) -> Option<JsonView> {
    match j {
        JsonView::Object(m) => member_get(m, key),
        _ => None,
    }
}

/// serde_json's `as_str`.
pub open spec fn json_str(j: Option<JsonView>) -> Option<Seq<char>> {
    match j {
        Some(JsonView::Str(s)) => Some(s),
        _ => None,
    }
}

/// serde_json's `as_bool`.
pub open spec fn json_bool(j: Option<JsonView>) -> Option<bool> {
    match j {
        Some(JsonView::Bool(b)) => Some(b),
        _ => None,
    }
}

/// serde_json's `as_u64`.
pub open spec fn json_u64(j: Option<JsonView>) -> Option<u64> {
    match j {
        Some(JsonView::PosInt(u)) => Some(u),
        _ => None,
    }
}

/// serde_json's `as_i64`.
pub open spec fn json_i64(j: Option<JsonView>) -> Option<i64> {
    match j {
        Some(JsonView::PosInt(u)) => if u <= i64::MAX as u64 { Some(u as i64) } else { None },
        Some(JsonView::NegInt(i)) => Some(i),
        _ => None,
    }
}

/// serde_json's `as_array`.
pub open spec fn json_array(j: Option<JsonView>) -> Option<Seq<JsonView>> {
    match j {
        Some(JsonView::Array(v)) => Some(v),
        _ => None,
    }
}

/// The views of a list of members, member by member.
pub proof fn lemma_members_view_index(m: Seq<(String, Json)>)
    ensures
        members_view(m).len() == m.len(),
        forall|i: int| 0 <= i < m.len() ==> #[trigger] members_view(m)[i] == (m[i].0@, json_view(m[i].1)),
    decreases m.len(),
{
    if m.len() > 0 {
        lemma_members_view_index(m.drop_last());
        assert forall|i: int| 0 <= i < m.len() implies #[trigger] members_view(m)[i] == (m[i].0@, json_view(m[i].1)) by {
            if i < m.len() - 1 {
                assert(m.drop_last()[i] == m[i]);
            }
        }
    }
}

/// The views of a list of values, element by element.
pub proof fn lemma_jsons_view_index(v: Seq<Json>)
    ensures
        jsons_view(v).len() == v.len(),
        forall|i: int| 0 <= i < v.len() ==> #[trigger] jsons_view(v)[i] == json_view(v[i]),
    decreases v.len(),
{
    if v.len() > 0 {
        lemma_jsons_view_index(v.drop_last());
        assert forall|i: int| 0 <= i < v.len() implies #[trigger] jsons_view(v)[i] == json_view(v[i]) by {
            if i < v.len() - 1 {
                assert(v.drop_last()[i] == v[i]);
            }
        }
    }
}

/// The first member with a key is found at the first position that has it.
pub proof fn lemma_member_index_prefix(m: Seq<(Seq<char>, JsonView)>, k: int, key: Seq<char>)
    requires
        0 < k <= m.len(),
        member_index(m.take(k - 1), key) is None,
        m[k - 1].0 == key,
    ensures
        member_index(m, key) == Some(k - 1),
    decreases m.len() - k,
{
    if k < m.len() {
        assert(m.drop_last().take(k - 1) =~= m.take(k - 1));
        assert(m.drop_last()[k - 1] == m[k - 1]);
        lemma_member_index_prefix(m.drop_last(), k, key);
    } else {
        assert(m.drop_last() =~= m.take(k - 1));
    }
}

impl Json {
    /// The member `key` of an object; `None` for a missing member or a value that is no object.
    pub fn get(&self, key: &str) -> (r: Option<&Json>)
        ensures
            match r {
                Some(v) => json_get(self@, key@) == Some(v@),
                None => json_get(self@, key@) is None,
            },
    {
        match self {
            Json::Object(m) => {
                let ghost mv = members_view(m@);
                proof {
                    reveal_with_fuel(json_view, 2);
                    assert(self@ == JsonView::Object(mv));
                    lemma_members_view_index(m@);
                    assert(mv.take(0) =~= Seq::<(Seq<char>, JsonView)>::empty());
                }
                let mut i: usize = 0;
                while i < m.len()
                    invariant
                        i <= m@.len(),
                        self@ == JsonView::Object(mv),
                        mv == members_view(m@),
                        mv.len() == m@.len(),
                        forall|j: int| 0 <= j < m@.len() ==> #[trigger] mv[j] == (m@[j].0@, json_view(m@[j].1)),
                        member_index(mv.take(i as int), key@) is None,
                    decreases m.len() - i,
                {
                    proof {
                        let t = mv.take(i + 1);
                        assert(t.drop_last() =~= mv.take(i as int));
                        assert(t.last() == mv[i as int]);
                    }
                    if str_eq(m[i].0.as_str(), key) {
                        proof {
                            lemma_member_index_prefix(mv, i + 1, key@);
                            assert(mv[i as int].1 == json_view(m@[i as int].1));
                        }
                        return Some(&m[i].1);
                    }
                    i = i + 1;
                }
                proof {
                    assert(mv.take(m@.len() as int) =~= mv);
                }
                None
            },
            _ => None,
        }
    }

    /// The text of a string value.
    pub fn as_str(&self) -> (r: Option<&str>)
        ensures
            match r {
                Some(s) => json_str(Some(self@)) == Some(s@),
                None => json_str(Some(self@)) is None,
            },
    {
        match self {
            Json::Str(s) => Some(s.as_str()),
            _ => None,
        }
    }

    /// The value of a boolean.
    pub fn as_bool(&self) -> (r: Option<bool>)
        ensures
            r == json_bool(Some(self@)),
    {
        match self {
            Json::Bool(b) => Some(*b),
            _ => None,
        }
    }

    /// The value of a non-negative integer.
    pub fn as_u64(&self) -> (r: Option<u64>)
        ensures
            r == json_u64(Some(self@)),
    {
        match self {
            Json::PosInt(u) => Some(*u),
            _ => None,
        }
    }

    /// The value of an integer that fits an `i64`.
    pub fn as_i64(&self) -> (r: Option<i64>)
        ensures
            r == json_i64(Some(self@)),
    {
        match self {
            Json::PosInt(u) => if *u <= 0x7fff_ffff_ffff_ffffu64 { Some(*u as i64) } else { None },
            Json::NegInt(i) => Some(*i),
            _ => None,
        }
    }

    /// The elements of an array.
    pub fn as_array(&self) -> (r: Option<&Vec<Json>>)
        ensures
            match r {
                Some(v) => json_array(Some(self@)) == Some(jsons_view(v@)),
                None => json_array(Some(self@)) is None,
            },
    {
        match self {
            Json::Array(v) => Some(v),
            _ => None,
        }
    }

    /// Whether the value is `null`.
    pub fn is_null(&self) -> (b: bool)
        ensures
            b == (self@ is Null),
    {
        match self {
            Json::Null => true,
            _ => false,
        }
    }
}

/// The string value of a member.
pub fn get_str<'a>(j: &'a Json, key: &str) -> (r: Option<&'a str>)
    ensures
        match r {
            Some(s) => json_str(json_get(j@, key@)) == Some(s@),
            None => json_str(json_get(j@, key@)) is None,
        },
{
    match j.get(key) {
        Some(v) => v.as_str(),
        None => None,
    }
}

/// A copy of the string value of a member.
pub fn get_string(j: &Json, key: &str) -> (r: Option<String>)
    ensures
        match r {
            Some(s) => json_str(json_get(j@, key@)) == Some(s@),
            None => json_str(json_get(j@, key@)) is None,
        },
{
    match get_str(j, key) {
        Some(s) => Some(crate::rule::text_of(s)),
        None => None,
    }
}

/// The non-negative integer value of a member.
pub fn get_u64(j: &Json, key: &str) -> (r: Option<u64>)
    ensures
        r == json_u64(json_get(j@, key@)),
{
    match j.get(key) {
        Some(v) => v.as_u64(),
        None => None,
    }
}

/// The `i64` value of a member.
pub fn get_i64(j: &Json, key: &str) -> (r: Option<i64>)
    ensures
        r == json_i64(json_get(j@, key@)),
{
    match j.get(key) {
        Some(v) => v.as_i64(),
        None => None,
    }
}

/// The boolean value of a member.
pub fn get_bool(j: &Json, key: &str) -> (r: Option<bool>)
    ensures
        r == json_bool(json_get(j@, key@)),
{
    match j.get(key) {
        Some(v) => v.as_bool(),
        None => None,
    }
}

/// The array value of a member.
pub fn get_array<'a>(j: &'a Json, key: &str) -> (r: Option<&'a Vec<Json>>)
    ensures
        match r {
            Some(v) => json_array(json_get(j@, key@)) == Some(jsons_view(v@)),
            None => json_array(json_get(j@, key@)) is None,
        },
{
    match j.get(key) {
        Some(v) => v.as_array(),
        None => None,
    }
}

/// Appends the member `key: value` to an object's members.
pub fn push_member(m: &mut Vec<(String, Json)>, key: &str, value: Json)
    ensures
        members_view(final(m)@) == members_view(old(m)@).push((key@, value@)),
{
    let ghost prev = m@;
    m.push((crate::rule::text_of(key), value));
    proof {
        assert(m@.drop_last() =~= prev);
    }
}

/// Appends a value to an array's items.
pub fn push_item(v: &mut Vec<Json>, x: Json)
    ensures
        jsons_view(final(v)@) == jsons_view(old(v)@).push(x@),
{
    let ghost prev = v@;
    v.push(x);
    proof {
        assert(v@.drop_last() =~= prev);
    }
}

/// A string value, or `null` for none.
pub fn opt_str_value(s: &Option<String>) -> (r: Json)
    ensures
        r@ == match s {
            Some(t) => JsonView::Str(t@),
            None => JsonView::Null,
        },
{
    match s {
        Some(t) => Json::Str(copy_string(t)),
        None => Json::Null,
    }
}

/// The object with these members.
pub fn object_of(m: Vec<(String, Json)>) -> (r: Json)
    ensures
        r@ == JsonView::Object(members_view(m@)),
{
    proof {
        reveal_with_fuel(json_view, 2);
    }
    Json::Object(m)
}

/// The array with these items.
pub fn array_of(v: Vec<Json>) -> (r: Json)
    ensures
        r@ == JsonView::Array(jsons_view(v@)),
{
    proof {
        reveal_with_fuel(json_view, 2);
    }
    Json::Array(v)
}

} // verus!

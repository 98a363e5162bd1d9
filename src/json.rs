//! JSON values as the library reads and writes them, and their meaning as
//! plain values.
use vstd::prelude::*;

use crate::text::{chars_of, opt_text, same_text, string_of, texts};

verus! {

/// A JSON value. Numbers keep their text; an object keeps its members in
/// order.
#[derive(Debug, PartialEq)]
pub enum Json {
    Null,
    Bool(bool),
    Number(String),
    Str(String),
    Array(Vec<Json>),
    Object(Vec<(String, Json)>),
}

/// The meaning of a JSON value, with texts as character sequences.
pub enum JsonV {
    Null,
    Bool(bool),
    Number(Seq<char>),
    Str(Seq<char>),
    Array(Seq<JsonV>),
    Object(Seq<(Seq<char>, JsonV)>),
}

pub open spec fn jview(j: Json) -> JsonV
    decreases j,
{
    match j {
        Json::Null => JsonV::Null,
        Json::Bool(b) => JsonV::Bool(b),
        Json::Number(n) => JsonV::Number(n@),
        Json::Str(s) => JsonV::Str(s@),
        Json::Array(items) => JsonV::Array(jview_items(items@)),
        Json::Object(members) => JsonV::Object(jview_members(members@)),
    }
}

pub open spec fn jview_items(items: Seq<Json>) -> Seq<JsonV>
    decreases items,
{
    if items.len() == 0 {
        Seq::empty()
    } else {
        jview_items(items.drop_last()).push(jview(items.last()))
    }
}

pub open spec fn jview_members(members: Seq<(String, Json)>) -> Seq<(Seq<char>, JsonV)>
    decreases members,
{
    if members.len() == 0 {
        Seq::empty()
    } else {
        jview_members(members.drop_last()).push(
            (members.last().0@, jview(members.last().1)),
        )
    }
}

pub proof fn lemma_jview_items(items: Seq<Json>)
    ensures
        jview_items(items).len() == items.len(),
        forall|i: int| 0 <= i < items.len() ==> #[trigger] jview_items(items)[i] == jview(items[i]),
    decreases items.len(),
{
    if items.len() > 0 {
        lemma_jview_items(items.drop_last());
    }
}

pub proof fn lemma_jview_members(members: Seq<(String, Json)>)
    ensures
        jview_members(members).len() == members.len(),
        forall|i: int|
            0 <= i < members.len() ==> #[trigger] jview_members(members)[i] == (
                members[i].0@,
                jview(members[i].1),
            ),
    decreases members.len(),
{
    if members.len() > 0 {
        lemma_jview_members(members.drop_last());
    }
}

/// The first member of `members` named `key`.
pub open spec fn member(members: Seq<(Seq<char>, JsonV)>, key: Seq<char>) -> Option<JsonV>
    decreases members.len(),
{
    if members.len() == 0 {
        None
    } else if members[0].0 == key {
        Some(members[0].1)
    } else {
        member(members.drop_first(), key)
    }
}

/// The member `key` of an object; `None` where `v` is no object or lacks it.
pub open spec fn jget(v: JsonV, key: Seq<char>) -> Option<JsonV> {
    match v {
        JsonV::Object(members) => member(members, key),
        _ => None,
    }
}

/// `v[key]`: the member `key` of an object, or null where there is none.
pub open spec fn jat(v: JsonV, key: Seq<char>) -> JsonV {
    match jget(v, key) {
        Some(x) => x,
        None => JsonV::Null,
    }
}

/// The text of a string value.
pub open spec fn jstr(v: JsonV) -> Option<Seq<char>> {
    match v {
        JsonV::Str(s) => Some(s),
        _ => None,
    }
}

/// The items of an array value.
pub open spec fn jarray(v: JsonV) -> Option<Seq<JsonV>> {
    match v {
        JsonV::Array(items) => Some(items),
        _ => None,
    }
}

/// The meaning of an optional value, where a missing one reads as null.
pub open spec fn opt_jview(v: Option<&Json>) -> JsonV {
    match v {
        Some(x) => jview(*x),
        None => JsonV::Null,
    }
}

/// The member `key` of `v`, where `v` is an object that has one.
pub fn get<'a>(v: Option<&'a Json>, key: &str) -> (r: Option<&'a Json>)
    ensures
        opt_jview(r) == jat(opt_jview(v), key@),
        r is Some <==> jget(opt_jview(v), key@) is Some,
{
    match v {
        Some(Json::Object(members)) => {
            proof {
                lemma_jview_members(members@);
            }
            let ghost ms = jview_members(members@);
            let mut k: usize = 0;
            assert(ms.skip(0) =~= ms);
            while k < members.len()
                invariant
                    v == Some(&Json::Object(*members)),
                    ms == jview_members(members@),
                    ms.len() == members@.len(),
                    forall|i: int|
                        0 <= i < members@.len() ==> #[trigger] ms[i] == (
                            members@[i].0@,
                            jview(members@[i].1),
                        ),
                    k <= members@.len(),
                    member(ms, key@) == member(ms.skip(k as int), key@),
                decreases members@.len() - k,
            {
                assert(ms.skip(k as int).drop_first() =~= ms.skip(k + 1));
                assert(ms.skip(k as int)[0] == ms[k as int]);
                if same_text(members[k].0.as_str(), key) {
                    return Some(&members[k].1);
                }
                k = k + 1;
            }
            None
        },
        _ => None,
    }
}

/// The text of `v`, where it is a string.
pub fn str_of<'a>(v: Option<&'a Json>) -> (r: Option<&'a String>)
    ensures
        match r {
            Some(s) => jstr(opt_jview(v)) == Some(s@),
            None => jstr(opt_jview(v)) is None,
        },
{
    match v {
        Some(Json::Str(s)) => Some(s),
        _ => None,
    }
}

/// The items of `v`, where it is an array.
pub fn array_of<'a>(v: Option<&'a Json>) -> (r: Option<&'a Vec<Json>>)
    ensures
        match r {
            Some(items) => jarray(opt_jview(v)) == Some(jview_items(items@)),
            None => jarray(opt_jview(v)) is None,
        },
{
    match v {
        Some(Json::Array(items)) => Some(items),
        _ => None,
    }
}

/// Whether `v` is an object.
pub fn is_object(v: Option<&Json>) -> (r: bool)
    ensures
        r == opt_jview(v) is Object,
{
    match v {
        Some(Json::Object(_)) => true,
        _ => false,
    }
}

/// A string value with the text of `s`.
pub fn jtext(s: &str) -> (r: Json)
    ensures
        jview(r) == JsonV::Str(s@),
{
    Json::Str(string_of(&chars_of(s)))
}

/// Appends the member `key: value` to `members`.
pub fn push_member(members: &mut Vec<(String, Json)>, key: &str, value: Json)
    ensures
        jview_members(final(members)@) == jview_members(old(members)@).push((key@, jview(value))),
{
    let ghost before = members@;
    members.push((string_of(&chars_of(key)), value));
    assert(members@.drop_last() =~= before);
}

/// Appends `value` to `items`.
pub fn push_item(items: &mut Vec<Json>, value: Json)
    ensures
        jview_items(final(items)@) == jview_items(old(items)@).push(jview(value)),
{
    let ghost before = items@;
    items.push(value);
    assert(items@.drop_last() =~= before);
}

/// The text member `key` of each of `items`, where all have one.
pub open spec fn texts_at(items: Seq<JsonV>, key: Seq<char>) -> Option<Seq<Seq<char>>> {
    if forall|i: int| 0 <= i < items.len() ==> #[trigger] jstr(jat(items[i], key)) is Some {
        Some(Seq::new(items.len(), |i: int| jstr(jat(items[i], key))->0))
    } else {
        None
    }
}

/// The text of an optional value that is a string.
pub fn opt_string(v: Option<&Json>) -> (r: Option<String>)
    ensures
        opt_text(r) == jstr(opt_jview(v)),
{
    match str_of(v) {
        Some(s) => Some(s.clone()),
        None => None,
    }
}

/// The text member `key` of each of `items`, where all have one.
pub fn texts_of(items: &Vec<Json>, key: &str) -> (r: Option<Vec<String>>)
    ensures
        match r {
            Some(t) => texts_at(jview_items(items@), key@) == Some(texts(t@)),
            None => texts_at(jview_items(items@), key@) is None,
        },
{
    proof {
        lemma_jview_items(items@);
    }
    let ghost iv = jview_items(items@);
    let mut out: Vec<String> = Vec::new();
    let mut k: usize = 0;
    while k < items.len()
        invariant
            iv == jview_items(items@),
            iv.len() == items@.len(),
            forall|i: int| 0 <= i < items@.len() ==> #[trigger] iv[i] == jview(items@[i]),
            k <= items@.len(),
            out@.len() == k,
            forall|i: int| 0 <= i < k ==> #[trigger] jstr(jat(iv[i], key@)) == Some(out@[i]@),
        decreases items@.len() - k,
    {
        match opt_string(get(Some(&items[k]), key)) {
            Some(t) => out.push(t),
            None => {
                assert(jstr(jat(iv[k as int], key@)) is None);
                return None;
            },
        }
        k = k + 1;
    }
    assert(texts(out@) =~= Seq::new(iv.len(), |i: int| jstr(jat(iv[i], key@))->0));
    Some(out)
}

} // verus!

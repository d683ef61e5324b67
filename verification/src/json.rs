//! A plain model of a JSON document and the lookups the chat stream needs.
use vstd::prelude::*;
use crate::text::chars_of;

verus! {

/// A JSON value. Objects keep their members in order; a lookup finds the
/// first member with the key.
pub enum Json {
    Null,
    Bool(bool),
    /// A number, kept as its decimal text.
    Number(String),
    Str(String),
    Array(Vec<Json>),
    Object(Vec<(String, Json)>),
}

/// The mathematical value of a JSON value.
pub enum JsonView {
    Null,
    Bool(bool),
    Number(Seq<char>),
    Str(Seq<char>),
    Array(Seq<JsonView>),
    Object(Seq<(Seq<char>, JsonView)>),
}

/// The value of `j`.
pub open spec fn json_view(j: Json) -> JsonView
    decreases j,
{
    match j {
        Json::Null => JsonView::Null,
        Json::Bool(b) => JsonView::Bool(b),
        Json::Number(n) => JsonView::Number(n@),
        Json::Str(s) => JsonView::Str(s@),
        Json::Array(items) => JsonView::Array(
            Seq::new(
                items@.len(),
                |i: int|
                    if 0 <= i < items@.len() {
                        json_view(items@[i])
                    } else {
                        JsonView::Null
                    },
            ),
        ),
        Json::Object(entries) => JsonView::Object(
            Seq::new(
                entries@.len(),
                |i: int|
                    if 0 <= i < entries@.len() {
                        (entries@[i].0@, json_view(entries@[i].1))
                    } else {
                        (Seq::empty(), JsonView::Null)
                    },
            ),
        ),
    }
}

/// The value of an optional JSON value.
pub open spec fn opt_json_view(j: Option<Json>) -> Option<JsonView> {
    match j {
        Some(x) => Some(json_view(x)),
        None => None,
    }
}

/// The value of the first member named `key`, if any.
pub open spec fn member(entries: Seq<(Seq<char>, JsonView)>, key: Seq<char>) -> Option<JsonView>
    decreases entries.len(),
{
    if entries.len() == 0 {
        None
    } else if entries[0].0 == key {
        Some(entries[0].1)
    } else {
        member(entries.drop_first(), key)
    }
}

/// `v[key]`: the member's value for an object that has it, else `null`.
pub open spec fn json_field(v: JsonView, key: Seq<char>) -> JsonView {
    match v {
        JsonView::Object(entries) => match member(entries, key) {
            Some(x) => x,
            None => JsonView::Null,
        },
        _ => JsonView::Null,
    }
}

/// `v[i]`: the item of an array that has it, else `null`.
pub open spec fn json_item(v: JsonView, i: int) -> JsonView {
    match v {
        JsonView::Array(items) => if 0 <= i < items.len() {
            items[i]
        } else {
            JsonView::Null
        },
        _ => JsonView::Null,
    }
}

/// The text of a string value.
pub open spec fn json_text(v: JsonView) -> Option<Seq<char>> {
    match v {
        JsonView::Str(s) => Some(s),
        _ => None,
    }
}

/// `serde_json::Value`, the value `serde_json` reads a JSON text into.
#[verifier::external_type_specification]
#[verifier::external_body]
pub struct ExJsonValue(serde_json::Value);

/// The value that `serde_json::from_str::<serde_json::Value>` reads from
/// `text`, where `text` is JSON: numbers as `serde_json` writes them back,
/// object members in the order `serde_json`'s map yields them.
pub uninterp spec fn parsed_json(text: Seq<char>) -> Option<JsonView>;

/// A `serde_json::Value` in the library's form, variant by variant.
#[verifier::external_body]
fn from_value(v: &serde_json::Value) -> Json {
    match v {
        serde_json::Value::Null => Json::Null,
        serde_json::Value::Bool(b) => Json::Bool(*b),
        serde_json::Value::Number(n) => Json::Number(n.to_string()),
        serde_json::Value::String(t) => Json::Str(t.clone()),
        serde_json::Value::Array(items) => Json::Array(items.iter().map(from_value).collect()),
        serde_json::Value::Object(map) => Json::Object(map.iter().map(|(k, x)| (k.clone(), from_value(x))).collect()),
    }
}

/// `serde_json::from_str::<serde_json::Value>`: the value of `text` where it is
/// JSON, `None` where `serde_json` refuses it. What it reads is named by
/// `parsed_json`, not stated.
#[verifier::external_body]
pub(crate) fn parse_json(text: &str) -> (r: Option<Json>)
    ensures
        opt_json_view(r) == parsed_json(text@),
{
    serde_json::from_str::<serde_json::Value>(text).ok().map(|v| from_value(&v))
}

/// Whether two strings hold the same characters.
pub fn str_eq(a: &str, b: &str) -> (r: bool)
    ensures
        r == (a@ == b@),
{
    let x = chars_of(a);
    let y = chars_of(b);
    if x.len() != y.len() {
        return false;
    }
    let mut i: usize = 0;
    while i < x.len()
        invariant
            i <= x.len() == y.len(),
            x@ == a@,
            y@ == b@,
            x@.take(i as int) == y@.take(i as int),
        decreases x.len() - i,
    {
        if x[i] != y[i] {
            proof {
                if a@ == b@ {
                    assert(x@[i as int] == y@[i as int]);
                }
            }
            return false;
        }
        assert(x@.take(i + 1) =~= x@.take(i as int).push(x@[i as int]));
        assert(y@.take(i + 1) =~= y@.take(i as int).push(y@[i as int]));
        i = i + 1;
    }
    assert(x@ =~= x@.take(i as int));
    assert(y@ =~= y@.take(i as int));
    true
}

/// `v[key]`; `None` stands for the `null` that a missing member gives.
pub fn field<'a>(v: &'a Json, key: &str) -> (r: Option<&'a Json>)
    ensures
        match r {
            Some(x) => json_view(*x) == json_field(json_view(*v), key@),
            None => json_field(json_view(*v), key@) == JsonView::Null,
        },
{
    match v {
        Json::Object(entries) => {
            let ghost ev = json_view(*v)->Object_0;
            assert(ev.len() == entries@.len());
            assert(forall|k: int| 0 <= k < ev.len() ==> #[trigger] ev[k] == (entries@[k].0@, json_view(entries@[k].1)));
            let mut i: usize = 0;
            assert(ev.skip(0) =~= ev);
            while i < entries.len()
                invariant
                    i <= entries.len() == ev.len(),
                    json_view(*v) == JsonView::Object(ev),
                    forall|k: int| 0 <= k < ev.len() ==> #[trigger] ev[k] == (entries@[k].0@, json_view(entries@[k].1)),
                    member(ev, key@) == member(ev.skip(i as int), key@),
                decreases entries.len() - i,
            {
                let ghost rest = ev.skip(i as int);
                assert(rest.drop_first() =~= ev.skip(i + 1));
                assert(rest[0] == ev[i as int]);
                if str_eq(entries[i].0.as_str(), key) {
                    assert(member(rest, key@) == Some(rest[0].1));
                    return Some(&entries[i].1);
                }
                i = i + 1;
            }
            assert(ev.skip(i as int) =~= Seq::<(Seq<char>, JsonView)>::empty());
            None
        },
        _ => None,
    }
}

/// `v[i]`; `None` stands for the `null` that a missing item gives.
pub fn item<'a>(v: &'a Json, i: usize) -> (r: Option<&'a Json>)
    ensures
        match r {
            Some(x) => json_view(*x) == json_item(json_view(*v), i as int),
            None => json_item(json_view(*v), i as int) == JsonView::Null,
        },
{
    match v {
        Json::Array(items) => if i < items.len() {
            Some(&items[i])
        } else {
            None
        },
        _ => None,
    }
}

/// In a member list, the first member named `key` is found, whatever
/// members with other names come before it and whatever comes after.
pub proof fn lemma_member_first(pre: Seq<(Seq<char>, JsonView)>, key: Seq<char>, x: JsonView, post: Seq<(Seq<char>, JsonView)>)
    requires
        forall|k: int| 0 <= k < pre.len() ==> (#[trigger] pre[k]).0 != key,
    ensures
        member(pre + seq![(key, x)] + post, key) == Some(x),
    decreases pre.len(),
{
    let all = pre + seq![(key, x)] + post;
    if pre.len() == 0 {
        assert(all[0] == (key, x));
    } else {
        assert(all[0] == pre[0]);
        let rest = pre.drop_first();
        assert forall|k: int| 0 <= k < rest.len() implies (#[trigger] rest[k]).0 != key by {
            assert(rest[k] == pre[k + 1]);
        }
        lemma_member_first(rest, key, x, post);
        assert(all.drop_first() =~= rest + seq![(key, x)] + post);
    }
}

} // verus!

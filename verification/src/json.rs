//! JSON documents as plain trees, with the text conversions done by `serde_json`.

use vstd::prelude::*;

verus! {

/// A JSON document. Numbers are kept as the decimal text of the number, object
/// members in document order.
pub enum Json {
    Null,
    Bool(bool),
    Number(String),
    Text(String),
    Array(Vec<Json>),
    Object(Vec<(String, Json)>),
}

/// The mathematical value of a [`Json`] tree: strings as sequences of characters.
pub enum JsonView {
    Null,
    Bool(bool),
    Number(Seq<char>),
    Text(Seq<char>),
    Array(Seq<JsonView>),
    Object(Seq<(Seq<char>, JsonView)>),
}

impl View for Json {
    type V = JsonView;

    open spec fn view(&self) -> JsonView
        decreases self,
    {
        match self {
            Json::Null => JsonView::Null,
            Json::Bool(b) => JsonView::Bool(*b),
            Json::Number(n) => JsonView::Number(n@),
            Json::Text(s) => JsonView::Text(s@),
            Json::Array(items) => JsonView::Array(
                Seq::new(items@.len(), |i: int| if 0 <= i < items@.len() { items@[i]@ } else { JsonView::Null }),
            ),
            Json::Object(members) => JsonView::Object(
                Seq::new(
                    members@.len(),
                    |i: int| (members@[i].0@, if 0 <= i < members@.len() { members@[i].1@ } else { JsonView::Null }),
                ),
            ),
        }
    }
}

/// The members of an object, each with its key and value taken by view.
pub open spec fn members_view(members: Seq<(String, Json)>) -> Seq<(Seq<char>, JsonView)> {
    Seq::new(members.len(), |i: int| (members[i].0@, members[i].1@))
}

/// The view of an object is the view of its members.
pub proof fn object_view(members: Vec<(String, Json)>)
    ensures
        Json::Object(members)@ == JsonView::Object(members_view(members@)),
{
    let a = Json::Object(members)@;
    assert(a->Object_0 =~= members_view(members@));
}

/// The first place at or after `from` where `members` has the key `key`, or the
/// length of `members` where there is none.
pub open spec fn first_place(members: Seq<(Seq<char>, JsonView)>, key: Seq<char>, from: int) -> int
    decreases members.len() - from,
{
    if from < 0 || from >= members.len() {
        members.len() as int
    } else if members[from].0 == key {
        from
    } else {
        first_place(members, key, from + 1)
    }
}

/// The value of the first member of `members` whose key is `key`.
pub open spec fn member_of(members: Seq<(Seq<char>, JsonView)>, key: Seq<char>) -> Option<JsonView> {
    let i = first_place(members, key, 0);
    if i < members.len() {
        Some(members[i].1)
    } else {
        None
    }
}

/// Looks `key` up among the members of an object: the first member with that key.
pub fn member<'a>(members: &'a Vec<(String, Json)>, key: &String) -> (found: Option<&'a Json>)
    ensures
        found is Some == member_of(members_view(members@), key@) is Some,
        found matches Some(j) ==> member_of(members_view(members@), key@) == Some(j@),
{
    let ghost view = members_view(members@);
    let mut i: usize = 0;
    while i < members.len()
        invariant
            i <= members@.len(),
            view == members_view(members@),
            first_place(view, key@, 0) == first_place(view, key@, i as int),
        decreases members@.len() - i,
    {
        if members[i].0 == *key {
            return Some(&members[i].1);
        }
        i += 1;
    }
    None
}

/// `serde_json::Value`, declared so that the conversions below can name it. Nothing
/// is known of what a value holds.
#[verifier::external_type_specification]
#[verifier::external_body]
pub struct ExValue(serde_json::Value);

/// The tree that `serde_json` reads out of `text`, or `None` where it rejects the text.
pub uninterp spec fn json_of_text(text: Seq<char>) -> Option<JsonView>;

/// The text that `serde_json` writes for `tree`, or `None` where it writes none, as
/// for a number that it does not accept.
pub uninterp spec fn text_of_json(tree: JsonView) -> Option<Seq<char>>;

/// Moves a `serde_json::Value` into a [`Json`] tree, variant by variant. A number
/// becomes the text that `serde_json::Number` displays. Nothing is claimed of the result.
#[verifier::external_body]
fn tree_of_value(value: serde_json::Value) -> Json {
    match value {
        serde_json::Value::Null => Json::Null,
        serde_json::Value::Bool(b) => Json::Bool(b),
        serde_json::Value::Number(n) => Json::Number(n.to_string()),
        serde_json::Value::String(s) => Json::Text(s),
        serde_json::Value::Array(items) => Json::Array(items.into_iter().map(tree_of_value).collect()),
        serde_json::Value::Object(members) => Json::Object(
            members.into_iter().map(|(k, v)| (k, tree_of_value(v))).collect(),
        ),
    }
}

/// Calls `serde_json::from_str` for a `serde_json::Value`. The contract only names
/// the outcome: the same text always gives the same tree.
#[verifier::external_body]
pub(crate) fn parse_json(text: &str) -> (tree: Option<Json>)
    ensures
        tree is Some == json_of_text(text@) is Some,
        tree matches Some(t) ==> json_of_text(text@) == Some(t@),
{
    serde_json::from_str::<serde_json::Value>(text).ok().map(tree_of_value)
}

/// Builds the `serde_json::Value` for a [`Json`] tree, variant by variant. A number is
/// read back with `serde_json::Number`'s `FromStr`; where that fails the result is
/// `None`. Nothing is claimed of the result.
#[verifier::external_body]
fn value_of_tree(tree: &Json) -> Option<serde_json::Value> {
    match tree {
        Json::Null => Some(serde_json::Value::Null),
        Json::Bool(b) => Some(serde_json::Value::Bool(*b)),
        Json::Number(n) => n.parse().ok().map(serde_json::Value::Number),
        Json::Text(s) => Some(serde_json::Value::String(s.clone())),
        Json::Array(items) => items.iter().map(value_of_tree).collect::<Option<Vec<_>>>().map(
            serde_json::Value::Array,
        ),
        Json::Object(members) => members.iter().map(|m| Some((m.0.clone(), value_of_tree(&m.1)?)))
            .collect::<Option<serde_json::Map<_, _>>>().map(serde_json::Value::Object),
    }
}

/// Calls `serde_json::to_string` on the value built from `tree`. The contract only
/// names the outcome: the same tree always gives the same text.
#[verifier::external_body]
pub(crate) fn render_json(tree: &Json) -> (text: Option<String>)
    ensures
        text is Some == text_of_json(tree@) is Some,
        text matches Some(t) ==> text_of_json(tree@) == Some(t@),
{
    value_of_tree(tree).and_then(|v| serde_json::to_string(&v).ok())
}

} // verus!

//! JSON documents as trees.
//!
//! The manifest is written down as JSON. [`Json`] is the tree that the text
//! of a document stands for, and [`JsonView`] is what contracts say of it.
//! Of a number the tree keeps its value where that is an unsigned integer
//! of 64 bits, the one kind that a manifest holds.

use crate::text::same_text;
use vstd::prelude::*;

verus! {

/// A JSON document.
#[derive(Debug, PartialEq, Eq)]
pub enum Json {
    Null,
    Bool(bool),
    /// A whole number from zero to the largest `u64`.
    Unsigned(u64),
    /// Any other number: negative, with a fraction, or too large.
    OtherNumber,
    Text(String),
    Array(Vec<Json>),
    /// The members of an object, in the order of the text.
    Object(Vec<(String, Json)>),
}

/// The mathematical tree that a [`Json`] stands for.
pub enum JsonView {
    Null,
    Bool(bool),
    Unsigned(u64),
    OtherNumber,
    Text(Seq<char>),
    Array(Seq<JsonView>),
    Object(Seq<(Seq<char>, JsonView)>),
}

/// The mathematical tree that `json` stands for.
pub open spec fn tree(json: Json) -> JsonView
    decreases json,
{
    match json {
        Json::Null => JsonView::Null,
        Json::Bool(b) => JsonView::Bool(b),
        Json::Unsigned(n) => JsonView::Unsigned(n),
        Json::OtherNumber => JsonView::OtherNumber,
        Json::Text(s) => JsonView::Text(s@),
        Json::Array(items) => JsonView::Array(
            Seq::new(
                items.len() as nat,
                |i: int|
                    if 0 <= i < items.len() {
                        tree(items[i])
                    } else {
                        JsonView::Null
                    },
            ),
        ),
        Json::Object(members) => JsonView::Object(
            Seq::new(
                members.len() as nat,
                |i: int|
                    if 0 <= i < members.len() {
                        (members[i].0@, tree(members[i].1))
                    } else {
                        (Seq::empty(), JsonView::Null)
                    },
            ),
        ),
    }
}

impl View for Json {
    type V = JsonView;

    open spec fn view(&self) -> JsonView {
        tree(*self)
    }
}

/// The place of the last member of `members` under `key`, if there is one.
///
/// Where a key is written twice, the later member is the one that counts.
pub open spec fn last_index_of(members: Seq<(Seq<char>, JsonView)>, key: Seq<char>) -> Option<int>
    decreases members.len(),
{
    if members.len() == 0 {
        None
    } else if members.last().0 == key {
        Some(members.len() - 1)
    } else {
        last_index_of(members.drop_last(), key)
    }
}

/// The value under `key` in `members`, if there is one.
pub open spec fn member(members: Seq<(Seq<char>, JsonView)>, key: Seq<char>) -> Option<JsonView> {
    match last_index_of(members, key) {
        Some(i) => Some(members[i].1),
        None => None,
    }
}

/// What contracts say of the items of an array.
pub open spec fn items_view(items: Seq<Json>) -> Seq<JsonView> {
    Seq::new(items.len(), |i: int| items[i]@)
}

/// What contracts say of the members of an object.
pub open spec fn members_view(members: Seq<(String, Json)>) -> Seq<(Seq<char>, JsonView)> {
    Seq::new(members.len(), |i: int| (members[i].0@, members[i].1@))
}

/// An array stands for the trees of its items.
pub proof fn lemma_array_view(items: Vec<Json>)
    ensures
        Json::Array(items)@ == JsonView::Array(items_view(items@)),
{
    assert(Json::Array(items)@->Array_0 =~= items_view(items@));
}

/// An object stands for its keys and the trees of its values.
pub proof fn lemma_object_view(members: Vec<(String, Json)>)
    ensures
        Json::Object(members)@ == JsonView::Object(members_view(members@)),
{
    assert(Json::Object(members)@->Object_0 =~= members_view(members@));
}

/// The value under `key` among `members`: that of the last member with
/// this key, if there is one.
pub fn find_member<'a>(members: &'a Vec<(String, Json)>, key: &str) -> (r: Option<&'a Json>)
    ensures
        match r {
            Some(json) => member(members_view(members@), key@) == Some(json@),
            None => member(members_view(members@), key@) is None,
        },
{
    let ghost all = members_view(members@);
    let mut n: usize = members.len();
    assert(all.take(n as int) =~= all);
    while n > 0
        invariant
            n <= members.len(),
            all == members_view(members@),
            last_index_of(all, key@) == last_index_of(all.take(n as int), key@),
        decreases n,
    {
        let ghost head = all.take(n as int);
        assert(head.last() == all[n - 1]);
        if same_text(members[n - 1].0.as_str(), key) {
            return Some(&members[n - 1].1);
        }
        assert(head.drop_last() =~= all.take(n - 1));
        n -= 1;
    }
    None
}

} // verus!

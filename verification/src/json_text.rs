//! JSON text, read and written by `serde_json`.
//!
//! The text of a document is not this library's business: `serde_json`
//! reads it into a value of its own and writes it from one. What is proved
//! here is the way between such a value and a [`Json`], one level at a time.
//! What `serde_json` does is named, not proved: see the items marked
//! `external_body`.

use crate::json::{
    items_view, lemma_array_view, lemma_object_view, members_view, Json, JsonView,
};
use crate::text::same_text;
use serde::Serialize;
use vstd::prelude::*;

verus! {

/// `serde_json::Value`: a document as `serde_json` holds it. Nothing is
/// known of one but through the items below.
#[verifier::external_type_specification]
#[verifier::external_body]
pub struct ExValue(serde_json::Value);

/// The tree that a value of `serde_json` stands for.
pub uninterp spec fn value_tree(value: serde_json::Value) -> JsonView;

/// The tree that `serde_json::from_slice` reads from `text`, or `None`
/// where it refuses the text.
pub uninterp spec fn parsed(text: Seq<u8>) -> Option<JsonView>;

/// The text that `serde_json::to_vec` writes for a value that stands for
/// `tree`, or `None` where it fails.
pub uninterp spec fn compact_text(tree: JsonView) -> Option<Seq<u8>>;

/// The text that the pretty printer of `serde_json` writes, with an indent
/// of four spaces, for a value that stands for `tree`, or `None` where it
/// fails.
pub uninterp spec fn pretty_text(tree: JsonView) -> Option<Seq<u8>>;

/// The text of `tree`, spread over lines or not.
pub open spec fn rendered(tree: JsonView, pretty: bool) -> Option<Seq<u8>> {
    if pretty {
        pretty_text(tree)
    } else {
        compact_text(tree)
    }
}

/// Whether no two members of `members` have the same key.
pub open spec fn distinct_keys(members: Seq<(Seq<char>, JsonView)>) -> bool {
    forall|i: int, j: int|
        0 <= i < j < members.len() ==> #[trigger] members[i].0 != #[trigger] members[j].0
}

/// Whether `tree` can be written down without loss: every number in it is
/// known by its value, and no object holds a key twice.
pub open spec fn renderable(tree: JsonView) -> bool
    decreases tree,
{
    match tree {
        JsonView::OtherNumber => false,
        JsonView::Array(items) => forall|i: int|
            0 <= i < items.len() ==> renderable(#[trigger] items[i]),
        JsonView::Object(members) => {
            &&& distinct_keys(members)
            &&& forall|i: int| 0 <= i < members.len() ==> renderable((#[trigger] members[i]).1)
        },
        _ => true,
    }
}

/// The top of a value of `serde_json`, with what lies below it left as it
/// is.
enum Node<'a> {
    Null,
    Bool(bool),
    Number(Option<u64>),
    Text(&'a String),
    Array(&'a Vec<serde_json::Value>),
    Object(Vec<(&'a String, &'a serde_json::Value)>),
}

/// The tree that `node` stands for.
spec fn node_tree(node: Node) -> JsonView {
    match node {
        Node::Null => JsonView::Null,
        Node::Bool(b) => JsonView::Bool(b),
        Node::Number(Some(n)) => JsonView::Unsigned(n),
        Node::Number(None) => JsonView::OtherNumber,
        Node::Text(s) => JsonView::Text(s@),
        Node::Array(items) => JsonView::Array(
            Seq::new(items.len() as nat, |i: int| value_tree(items[i])),
        ),
        Node::Object(members) => JsonView::Object(
            Seq::new(members.len() as nat, |i: int| (members[i].0@, value_tree(*members[i].1))),
        ),
    }
}

/// A value of `serde_json` to be put together from its top and from what
/// lies below it.
enum Shape {
    Null,
    Bool(bool),
    Unsigned(u64),
    Text(String),
    Array(Vec<serde_json::Value>),
    Object(Vec<(String, serde_json::Value)>),
}

/// The tree that `shape` stands for.
spec fn shape_tree(shape: Shape) -> JsonView {
    match shape {
        Shape::Null => JsonView::Null,
        Shape::Bool(b) => JsonView::Bool(b),
        Shape::Unsigned(n) => JsonView::Unsigned(n),
        Shape::Text(s) => JsonView::Text(s@),
        Shape::Array(items) => JsonView::Array(
            Seq::new(items.len() as nat, |i: int| value_tree(items[i])),
        ),
        Shape::Object(members) => JsonView::Object(
            Seq::new(members.len() as nat, |i: int| (members[i].0@, value_tree(members[i].1))),
        ),
    }
}

/// `serde_json::from_slice` at the type `serde_json::Value`: the value
/// that it reads from `text` stands for the tree named `parsed(text)`, and
/// it fails exactly where that is `None`.
#[verifier::external_body]
fn read_value(text: &[u8]) -> (r: Option<serde_json::Value>)
    ensures
        match r {
            Some(value) => parsed(text@) == Some(value_tree(value)),
            None => parsed(text@) is None,
        },
{
    serde_json::from_slice::<serde_json::Value>(text).ok()
}

/// The variants of `serde_json::Value` told apart: the top of `value`,
/// with its number by `Number::as_u64` and its members in the order of
/// `Map::iter`, stands for the same tree as `value`.
#[verifier::external_body]
fn inspect<'a>(value: &'a serde_json::Value) -> (r: Node<'a>)
    ensures
        node_tree(r) == value_tree(*value),
{
    match value {
        serde_json::Value::Null => Node::Null,
        serde_json::Value::Bool(b) => Node::Bool(*b),
        serde_json::Value::Number(n) => Node::Number(n.as_u64()),
        serde_json::Value::String(s) => Node::Text(s),
        serde_json::Value::Array(items) => Node::Array(items),
        serde_json::Value::Object(members) => Node::Object(members.iter().collect()),
    }
}

/// The variants of `serde_json::Value` put together: the value stands for
/// the tree of `shape`. An object is collected into a `serde_json::Map`,
/// which keeps the order of members whose keys differ.
#[verifier::external_body]
fn build(shape: Shape) -> (r: serde_json::Value)
    requires
        shape_tree(shape) matches JsonView::Object(members) ==> distinct_keys(members),
    ensures
        value_tree(r) == shape_tree(shape),
{
    match shape {
        Shape::Null => serde_json::Value::Null,
        Shape::Bool(b) => serde_json::Value::Bool(b),
        Shape::Unsigned(n) => serde_json::Value::Number(serde_json::Number::from(n)),
        Shape::Text(s) => serde_json::Value::String(s),
        Shape::Array(items) => serde_json::Value::Array(items),
        Shape::Object(members) => serde_json::Value::Object(members.into_iter().collect()),
    }
}

/// `serde_json::to_vec` on a value: the text is the one named
/// `compact_text` of the value's tree.
#[verifier::external_body]
fn write_compact(value: &serde_json::Value) -> (r: Option<Vec<u8>>)
    requires
        renderable(value_tree(*value)),
    ensures
        match r {
            Some(text) => compact_text(value_tree(*value)) == Some(text@),
            None => compact_text(value_tree(*value)) is None,
        },
{
    serde_json::to_vec(value).ok()
}

/// `Serialize::serialize` of a value into a `serde_json::Serializer` whose
/// formatter is `PrettyFormatter::with_indent` of four spaces: the text is
/// the one named `pretty_text` of the value's tree.
#[verifier::external_body]
fn write_pretty(value: &serde_json::Value) -> (r: Option<Vec<u8>>)
    requires
        renderable(value_tree(*value)),
    ensures
        match r {
            Some(text) => pretty_text(value_tree(*value)) == Some(text@),
            None => pretty_text(value_tree(*value)) is None,
        },
{
    let mut text = Vec::new();
    let formatter = serde_json::ser::PrettyFormatter::with_indent(b"    ");
    let mut serializer = serde_json::Serializer::with_formatter(&mut text, formatter);
    match value.serialize(&mut serializer) {
        Ok(()) => Some(text),
        Err(_) => None,
    }
}

/// The tree of `value`, as a [`Json`].
fn tree_of_value(value: &serde_json::Value) -> (r: Json)
    ensures
        r@ == value_tree(*value),
    decreases value_tree(*value),
{
    match inspect(value) {
        Node::Null => Json::Null,
        Node::Bool(b) => Json::Bool(b),
        Node::Number(Some(n)) => Json::Unsigned(n),
        Node::Number(None) => Json::OtherNumber,
        Node::Text(s) => Json::Text(s.clone()),
        Node::Array(items) => {
            let ghost below = Seq::new(items.len() as nat, |i: int| value_tree(items[i]));
            let mut out: Vec<Json> = Vec::new();
            let mut i: usize = 0;
            while i < items.len()
                invariant
                    i <= items.len(),
                    out.len() == i,
                    value_tree(*value) == JsonView::Array(below),
                    below == Seq::new(items.len() as nat, |i: int| value_tree(items[i])),
                    forall|j: int| 0 <= j < i ==> out[j]@ == below[j],
                decreases items.len() - i,
            {
                proof {
                    assert(below[i as int] == value_tree(items[i as int]));
                    let whole = value_tree(*value);
                    assert(decreases_to!(whole => whole->Array_0));
                    assert(decreases_to!(whole->Array_0 => whole->Array_0[i as int]));
                }
                let child = tree_of_value(&items[i]);
                out.push(child);
                i += 1;
            }
            let r = Json::Array(out);
            assert(r@->Array_0 =~= below);
            r
        },
        Node::Object(members) => {
            let ghost below = Seq::new(
                members.len() as nat,
                |i: int| (members[i].0@, value_tree(*members[i].1)),
            );
            let mut out: Vec<(String, Json)> = Vec::new();
            let mut i: usize = 0;
            while i < members.len()
                invariant
                    i <= members.len(),
                    out.len() == i,
                    value_tree(*value) == JsonView::Object(below),
                    below == Seq::new(
                        members.len() as nat,
                        |i: int| (members[i].0@, value_tree(*members[i].1)),
                    ),
                    forall|j: int| 0 <= j < i ==> (out[j].0@, out[j].1@) == below[j],
                decreases members.len() - i,
            {
                proof {
                    assert(below[i as int] == (
                        members[i as int].0@,
                        value_tree(*members[i as int].1),
                    ));
                    let whole = value_tree(*value);
                    assert(decreases_to!(whole => whole->Object_0));
                    assert(decreases_to!(whole->Object_0 => whole->Object_0[i as int]));
                    assert(decreases_to!(whole->Object_0[i as int] => whole->Object_0[i as int].1));
                }
                let child = tree_of_value(members[i].1);
                out.push((members[i].0.clone(), child));
                i += 1;
            }
            let r = Json::Object(out);
            assert(r@->Object_0 =~= below);
            r
        },
    }
}

/// A value of `serde_json` that stands for `json`.
fn value_of_tree(json: &Json) -> (r: serde_json::Value)
    requires
        renderable(json@),
    ensures
        value_tree(r) == json@,
    decreases json,
{
    match json {
        Json::Null => build(Shape::Null),
        Json::Bool(b) => build(Shape::Bool(*b)),
        Json::Unsigned(n) => build(Shape::Unsigned(*n)),
        // Not reached: a number without its value cannot be written down.
        Json::OtherNumber => build(Shape::Null),
        Json::Text(s) => build(Shape::Text(s.clone())),
        Json::Array(items) => {
            let ghost below = json@->Array_0;
            let mut out: Vec<serde_json::Value> = Vec::new();
            let mut i: usize = 0;
            while i < items.len()
                invariant
                    i <= items.len(),
                    out.len() == i,
                    json == Json::Array(*items),
                    below == json@->Array_0,
                    below.len() == items.len(),
                    renderable(json@),
                    forall|j: int| 0 <= j < i ==> value_tree(out[j]) == below[j],
                decreases items.len() - i,
            {
                proof {
                    assert(below[i as int] == items[i as int]@);
                    assert(renderable(below[i as int]));
                }
                let child = value_of_tree(&items[i]);
                out.push(child);
                i += 1;
            }
            let ghost shape = Shape::Array(out);
            assert(shape_tree(shape)->Array_0 =~= below);
            build(Shape::Array(out))
        },
        Json::Object(members) => {
            let ghost below = json@->Object_0;
            let mut out: Vec<(String, serde_json::Value)> = Vec::new();
            let mut i: usize = 0;
            while i < members.len()
                invariant
                    i <= members.len(),
                    out.len() == i,
                    json == Json::Object(*members),
                    below == json@->Object_0,
                    below.len() == members.len(),
                    renderable(json@),
                    forall|j: int| 0 <= j < i ==> (out[j].0@, value_tree(out[j].1)) == below[j],
                decreases members.len() - i,
            {
                proof {
                    assert(below[i as int] == (members[i as int].0@, members[i as int].1@));
                    assert(renderable(below[i as int].1));
                }
                let child = value_of_tree(&members[i].1);
                out.push((members[i].0.clone(), child));
                i += 1;
            }
            let ghost shape = Shape::Object(out);
            assert(shape_tree(shape)->Object_0 =~= below);
            build(Shape::Object(out))
        },
    }
}

/// Whether no two of `members` have the same key.
fn keys_are_distinct(members: &Vec<(String, Json)>) -> (r: bool)
    ensures
        r == distinct_keys(members_view(members@)),
{
    let ghost all = members_view(members@);
    let mut j: usize = 0;
    while j < members.len()
        invariant
            j <= members.len(),
            all == members_view(members@),
            forall|a: int, b: int| 0 <= a < b < j ==> #[trigger] all[a].0 != #[trigger] all[b].0,
        decreases members.len() - j,
    {
        let mut i: usize = 0;
        while i < j
            invariant
                i <= j < members.len(),
                all == members_view(members@),
                forall|a: int| 0 <= a < i ==> (#[trigger] all[a]).0 != all[j as int].0,
            decreases j - i,
        {
            if same_text(members[i].0.as_str(), members[j].0.as_str()) {
                assert(all[i as int].0 == all[j as int].0);
                return false;
            }
            i += 1;
        }
        j += 1;
    }
    true
}

impl Json {
    /// Whether the document can be written down without loss.
    pub fn is_renderable(&self) -> (r: bool)
        ensures
            r == renderable(self@),
        decreases self,
    {
        match self {
            Json::OtherNumber => false,
            Json::Array(items) => {
                proof {
                    lemma_array_view(*items);
                }
                let mut i: usize = 0;
                while i < items.len()
                    invariant
                        i <= items.len(),
                        *self == Json::Array(*items),
                        self@ == JsonView::Array(items_view(items@)),
                        forall|j: int| 0 <= j < i ==> renderable(#[trigger] items_view(items@)[j]),
                    decreases items.len() - i,
                {
                    assert(items_view(items@)[i as int] == items[i as int]@);
                    if !items[i].is_renderable() {
                        assert(!renderable(self@)) by {
                            let below = items_view(items@);
                            assert(self@->Array_0 == below);
                            assert(!renderable(below[i as int]));
                        }
                        return false;
                    }
                    i += 1;
                }
                true
            },
            Json::Object(members) => {
                proof {
                    lemma_object_view(*members);
                }
                if !keys_are_distinct(members) {
                    return false;
                }
                let mut i: usize = 0;
                while i < members.len()
                    invariant
                        i <= members.len(),
                        *self == Json::Object(*members),
                        self@ == JsonView::Object(members_view(members@)),
                        distinct_keys(members_view(members@)),
                        forall|j: int|
                            0 <= j < i ==> renderable((#[trigger] members_view(members@)[j]).1),
                    decreases members.len() - i,
                {
                    assert(members_view(members@)[i as int].1 == members[i as int].1@);
                    if !members[i].1.is_renderable() {
                        assert(!renderable(members_view(members@)[i as int].1));
                        return false;
                    }
                    i += 1;
                }
                true
            },
            _ => true,
        }
    }

    /// Writes a document down: on one line, or spread over lines with an
    /// indent of four spaces.
    ///
    /// A document that cannot be written down without loss gives `None`.
    /// Of any other the result is the text that `serde_json` writes for the
    /// tree, and `None` exactly where it fails.
    pub fn render(&self, pretty: bool) -> (r: Option<Vec<u8>>)
        ensures
            !renderable(self@) ==> r is None,
            renderable(self@) ==> match r {
                Some(text) => rendered(self@, pretty) == Some(text@),
                None => rendered(self@, pretty) is None,
            },
    {
        if !self.is_renderable() {
            return None;
        }
        let value = value_of_tree(self);
        if pretty {
            write_pretty(&value)
        } else {
            write_compact(&value)
        }
    }

    /// Reads a document from its text.
    ///
    /// The result is the tree that `serde_json` reads from `text`, and
    /// `None` exactly where it refuses the text.
    pub fn parse(text: &[u8]) -> (r: Option<Json>)
        ensures
            match r {
                Some(json) => parsed(text@) == Some(json@),
                None => parsed(text@) is None,
            },
    {
        match read_value(text) {
            Some(value) => Some(tree_of_value(&value)),
            None => None,
        }
    }
}

} // verus!

//! JSON text. serde_json reads a text into a tree of its own and writes such
//! a tree as text; documents are carried into and out of its trees one level
//! at a time.

use vstd::prelude::*;
use crate::json::{numeral, Document, Json};

verus! {

/// `serde_json::Value`, the tree that serde_json reads a text into; of what
/// it holds only its document is spoken of.
#[verifier::external_type_specification]
#[verifier::external_body]
pub struct ExTree(serde_json::Value);

/// The document that a tree of serde_json holds: numbers by their numerals,
/// the members of an object in the order in which its map hands them out.
pub uninterp spec fn document_of(tree: serde_json::Value) -> Json;

/// What `serde_json::from_str` makes of a text: the document of the tree that
/// it returns, or the message of its error.
pub uninterp spec fn parsed(text: Seq<char>) -> Result<Json, Seq<char>>;

/// The members that the map of serde_json holds, in the order in which it
/// hands them out, after the given members were put into it one after
/// another.
pub uninterp spec fn kept_members(members: Seq<(Seq<char>, Json)>) -> Seq<(Seq<char>, Json)>;

/// The text that serde_json writes for a tree that holds the given document.
pub uninterp spec fn json_text(doc: Json) -> Seq<char>;

/// One level of a tree of serde_json, borrowed from it.
enum Node<'a> {
    Null,
    Bool(bool),
    Number(&'a serde_json::Number),
    String(&'a String),
    Array(&'a Vec<serde_json::Value>),
    Object(Vec<(&'a String, &'a serde_json::Value)>),
}

/// The documents that a run of trees holds.
spec fn documents_of(trees: Seq<serde_json::Value>) -> Seq<Json> {
    Seq::new(trees.len(), |i: int| document_of(trees[i]))
}

/// The members that a run of keys and borrowed trees stands for.
spec fn borrowed_members(members: Seq<(&String, &serde_json::Value)>) -> Seq<
    (Seq<char>, Json),
> {
    Seq::new(members.len(), |i: int| (members[i].0@, document_of(*members[i].1)))
}

/// The members that a run of keys and trees stands for.
spec fn owned_members(members: Seq<(String, serde_json::Value)>) -> Seq<
    (Seq<char>, Json),
> {
    Seq::new(members.len(), |i: int| (members[i].0@, document_of(members[i].1)))
}

/// `serde_json::from_str` for a tree: the tree that the text parses to, or
/// the message of the error.
#[verifier::external_body]
fn parse_tree(text: &str) -> (outcome: Result<serde_json::Value, String>)
    ensures
        match outcome {
            Ok(tree) => parsed(text@) == Ok::<Json, Seq<char>>(document_of(tree)),
            Err(message) => parsed(text@) == Err::<Json, Seq<char>>(message@),
        },
{
    serde_json::from_str::<serde_json::Value>(text).map_err(|error| error.to_string())
}

/// The variants of `serde_json::Value`, told apart: the level of the tree
/// at its root, with the members of an object as `iter` of its map hands
/// them out.
#[verifier::external_body]
fn node_of<'a>(tree: &'a serde_json::Value) -> (node: Node<'a>)
    ensures
        document_of(*tree) == match node {
            Node::Null => Json::Null,
            Node::Bool(b) => Json::Bool(b),
            Node::Number(n) => Json::Number(numeral(*n)),
            Node::String(s) => Json::String(s@),
            Node::Array(items) => Json::Array(documents_of(items@)),
            Node::Object(members) => Json::Object(borrowed_members(members@)),
        },
{
    match tree {
        serde_json::Value::Null => Node::Null,
        serde_json::Value::Bool(b) => Node::Bool(*b),
        serde_json::Value::Number(n) => Node::Number(n),
        serde_json::Value::String(s) => Node::String(s),
        serde_json::Value::Array(items) => Node::Array(items),
        serde_json::Value::Object(members) => Node::Object(members.iter().collect()),
    }
}

/// `serde_json::Value::Null`: the tree of null.
#[verifier::external_body]
fn null_tree() -> (tree: serde_json::Value)
    ensures
        document_of(tree) == Json::Null,
{
    serde_json::Value::Null
}

/// `serde_json::Value::Bool`: the tree of a boolean.
#[verifier::external_body]
fn bool_tree(b: bool) -> (tree: serde_json::Value)
    ensures
        document_of(tree) == Json::Bool(b),
{
    serde_json::Value::Bool(b)
}

/// `serde_json::Value::Number`: the tree of a number.
#[verifier::external_body]
fn number_tree(n: serde_json::Number) -> (tree: serde_json::Value)
    ensures
        document_of(tree) == Json::Number(numeral(n)),
{
    serde_json::Value::Number(n)
}

/// `serde_json::Value::String`: the tree of a string.
#[verifier::external_body]
fn string_tree(s: String) -> (tree: serde_json::Value)
    ensures
        document_of(tree) == Json::String(s@),
{
    serde_json::Value::String(s)
}

/// `serde_json::Value::Array`: the tree of an array of the given trees.
#[verifier::external_body]
fn array_tree(items: Vec<serde_json::Value>) -> (tree: serde_json::Value)
    ensures
        document_of(tree) == Json::Array(documents_of(items@)),
{
    serde_json::Value::Array(items)
}

/// `serde_json::Value::Object` of the map that the given members are
/// collected into: the tree of an object with the members that the map keeps.
#[verifier::external_body]
fn object_tree(members: Vec<(String, serde_json::Value)>) -> (tree: serde_json::Value)
    ensures
        document_of(tree) == Json::Object(kept_members(owned_members(members@))),
{
    serde_json::Value::Object(members.into_iter().collect())
}

/// `serde_json::Value`'s `to_string`: the text of the tree.
#[verifier::external_body]
fn tree_text(tree: &serde_json::Value) -> (text: String)
    ensures
        text@ == json_text(document_of(*tree)),
{
    tree.to_string()
}

/// The document that serde_json holds once `doc` was carried into a tree of
/// it: the same, but for the members of each object, which are those that
/// its map keeps.
pub open spec fn stored(doc: Json) -> Json
    decreases doc, 0nat,
{
    match doc {
        Json::Array(items) => Json::Array(stored_items(items)),
        Json::Object(members) => Json::Object(kept_members(stored_members(members))),
        _ => doc,
    }
}

/// `stored` of each item of an array.
pub open spec fn stored_items(items: Seq<Json>) -> Seq<Json>
    decreases items, 1nat,
{
    Seq::new(
        items.len(),
        |i: int|
            if 0 <= i < items.len() {
                stored(items[i])
            } else {
                Json::Null
            },
    )
}

/// The members of an object with `stored` of what each holds.
pub open spec fn stored_members(members: Seq<(Seq<char>, Json)>) -> Seq<(Seq<char>, Json)>
    decreases members, 1nat,
{
    Seq::new(
        members.len(),
        |i: int|
            if 0 <= i < members.len() {
                (members[i].0, stored(members[i].1))
            } else {
                (Seq::empty(), Json::Null)
            },
    )
}

/// The JSON text of a document, as serde_json writes it.
pub open spec fn rendered(doc: Json) -> Seq<char> {
    json_text(stored(doc))
}

/// Carries a tree of serde_json into a document.
fn from_tree(tree: &serde_json::Value) -> (doc: Document)
    ensures
        doc@ == document_of(*tree),
    decreases document_of(*tree),
{
    match node_of(tree) {
        Node::Null => Document::Null,
        Node::Bool(b) => Document::Bool(b),
        Node::Number(n) => Document::Number(n.clone()),
        Node::String(s) => Document::String(s.clone()),
        Node::Array(items) => {
            let mut docs: Vec<Document> = Vec::new();
            let mut i: usize = 0;
            assert(decreases_to!(document_of(*tree) => document_of(*tree)->Array_0));
            while i < items.len()
                invariant
                    i <= items.len(),
                    docs.len() == i,
                    decreases_to!(document_of(*tree) => documents_of(items@)),
                    document_of(*tree) == Json::Array(documents_of(items@)),
                    forall|k: int| 0 <= k < i ==> docs[k]@ == document_of(items[k]),
                decreases items.len() - i,
            {
                assert(documents_of(items@)[i as int] == document_of(items[i as int]));
                assert(decreases_to!(documents_of(items@) => documents_of(items@)[i as int]));
                docs.push(from_tree(&items[i]));
                i += 1;
            }
            let doc = Document::Array(docs);
            assert(doc@->Array_0 =~= document_of(*tree)->Array_0);
            doc
        },
        Node::Object(members) => {
            let mut docs: Vec<(String, Document)> = Vec::new();
            let mut i: usize = 0;
            assert(decreases_to!(document_of(*tree) => document_of(*tree)->Object_0));
            while i < members.len()
                invariant
                    i <= members.len(),
                    docs.len() == i,
                    decreases_to!(document_of(*tree) => borrowed_members(members@)),
                    document_of(*tree) == Json::Object(borrowed_members(members@)),
                    forall|k: int|
                        0 <= k < i ==> docs[k].0@ == members[k].0@ && docs[k].1@ == document_of(
                            *members[k].1,
                        ),
                decreases members.len() - i,
            {
                let ghost member = borrowed_members(members@)[i as int];
                assert(member == (members[i as int].0@, document_of(*members[i as int].1)));
                assert(decreases_to!(borrowed_members(members@) => member));
                assert(decreases_to!(member => member.1));
                let key = members[i].0.clone();
                let held = from_tree(members[i].1);
                docs.push((key, held));
                i += 1;
            }
            let doc = Document::Object(docs);
            assert(doc@->Object_0 =~= document_of(*tree)->Object_0);
            doc
        },
    }
}

/// Carries a document into a tree of serde_json.
fn to_tree(doc: &Document) -> (tree: serde_json::Value)
    ensures
        document_of(tree) == stored(doc@),
    decreases doc,
{
    match doc {
        Document::Null => null_tree(),
        Document::Bool(b) => bool_tree(*b),
        Document::Number(n) => number_tree(n.clone()),
        Document::String(s) => string_tree(s.clone()),
        Document::Array(items) => {
            let mut trees: Vec<serde_json::Value> = Vec::new();
            let mut i: usize = 0;
            while i < items.len()
                invariant
                    i <= items.len(),
                    trees.len() == i,
                    decreases_to!(doc => items),
                    *doc == Document::Array(*items),
                    forall|k: int| 0 <= k < i ==> document_of(trees[k]) == stored(items[k]@),
                decreases items.len() - i,
            {
                assert(decreases_to!(*items => items[i as int]));
                trees.push(to_tree(&items[i]));
                i += 1;
            }
            assert(documents_of(trees@) =~= stored_items(doc@->Array_0));
            array_tree(trees)
        },
        Document::Object(members) => {
            let mut trees: Vec<(String, serde_json::Value)> = Vec::new();
            let mut i: usize = 0;
            while i < members.len()
                invariant
                    i <= members.len(),
                    trees.len() == i,
                    decreases_to!(doc => members),
                    *doc == Document::Object(*members),
                    forall|k: int|
                        0 <= k < i ==> trees[k].0@ == members[k].0@ && document_of(trees[k].1)
                            == stored(members[k].1@),
                decreases members.len() - i,
            {
                assert(decreases_to!(*members => members[i as int]));
                let key = members[i].0.clone();
                let held = to_tree(&members[i].1);
                trees.push((key, held));
                i += 1;
            }
            assert(owned_members(trees@) =~= stored_members(doc@->Object_0));
            object_tree(trees)
        },
    }
}

/// Reads a document from JSON text: the document that the text parses to, or
/// the parser's message.
pub fn read_document(text: &str) -> (outcome: Result<Document, String>)
    ensures
        match outcome {
            Ok(doc) => parsed(text@) == Ok::<Json, Seq<char>>(doc@),
            Err(message) => parsed(text@) == Err::<Json, Seq<char>>(message@),
        },
{
    match parse_tree(text) {
        Ok(tree) => Ok(from_tree(&tree)),
        Err(message) => Err(message),
    }
}

/// Writes a document as JSON text.
pub fn write_document(doc: &Document) -> (text: String)
    ensures
        text@ == rendered(doc@),
{
    let tree = to_tree(doc);
    tree_text(&tree)
}

} // verus!

//! Compression: a document becomes a rewritten tree of indices and the list
//! of scalars that they name.

use vstd::prelude::*;
use crate::decimal::{decimal_text, index_text};
use crate::decompress::decompressed;
use crate::error::Error;
use crate::json::{index_number, member_views, views, Document, Json};
use crate::laws::{lemma_indices_exact, lemma_references_distinct, lemma_round_trip, mentions};
use crate::table::{all_scalars, interned, RefTable};
use crate::text::{parsed, read_document, rendered, write_document};

verus! {

/// What encoding `doc` yields when `refs` is the reference list so far: the
/// rewritten tree, and the reference list after it.
///
/// An array keeps its shape and an object its members in order. A key
/// becomes the decimal text of the index of the string it was, and a scalar
/// becomes the number of its own index.
pub open spec fn encode(refs: Seq<Json>, doc: Json) -> (Json, Seq<Json>)
    decreases doc, 0nat,
{
    match doc {
        Json::Array(items) => {
            let (trees, refs1) = encode_items(refs, items);
            (Json::Array(trees), refs1)
        },
        Json::Object(members) => {
            let (trees, refs1) = encode_members(refs, members);
            (Json::Object(trees), refs1)
        },
        _ => {
            let (refs1, index) = interned(refs, doc);
            (Json::Number(decimal_text(index)), refs1)
        },
    }
}

/// `encode` over the items of an array, first to last.
pub open spec fn encode_items(refs: Seq<Json>, items: Seq<Json>) -> (Seq<Json>, Seq<Json>)
    decreases items, 1nat,
{
    if items.len() == 0 {
        (Seq::empty(), refs)
    } else {
        let (trees, refs1) = encode_items(refs, items.drop_last());
        let (tree, refs2) = encode(refs1, items.last());
        (trees.push(tree), refs2)
    }
}

/// `encode` over the members of an object, first to last: of each member the
/// key is looked up first, then what it holds is encoded.
pub open spec fn encode_members(refs: Seq<Json>, members: Seq<(Seq<char>, Json)>) -> (
    Seq<(Seq<char>, Json)>,
    Seq<Json>,
)
    decreases members, 1nat,
{
    if members.len() == 0 {
        (Seq::empty(), refs)
    } else {
        let (trees, refs1) = encode_members(refs, members.drop_last());
        let (refs2, index) = interned(refs1, Json::String(members.last().0));
        let (tree, refs3) = encode(refs2, members.last().1);
        (trees.push((decimal_text(index), tree)), refs3)
    }
}

/// The rewritten tree of `doc`: what encoding it yields from an empty list.
pub open spec fn rewritten(doc: Json) -> Json {
    encode(Seq::empty(), doc).0
}

/// The reference list of `doc`: every distinct scalar and key of it, in the
/// order in which encoding first meets them.
pub open spec fn references(doc: Json) -> Seq<Json> {
    encode(Seq::empty(), doc).1
}

/// The compressed form of `doc`: the array of its rewritten tree and its
/// reference list.
pub open spec fn compressed(doc: Json) -> Json {
    Json::Array(seq![rewritten(doc), Json::Array(references(doc))])
}

/// Encodes a scalar: the number of its index in the table.
fn get_number_index(table: &mut RefTable, scalar: &Document) -> (tree: Document)
    requires
        old(table).well_formed(),
        scalar@.is_scalar(),
    ensures
        final(table).well_formed(),
        (tree@, final(table)@) == encode(old(table)@, scalar@),
{
    match table.intern(scalar) {
        Ok(index) => Document::Number(index_number(index)),
        Err(_) => vstd::pervasive::unreached(),
    }
}

/// Encodes the items of an array, first to last.
fn get_array_value(table: &mut RefTable, items: &Vec<Document>) -> (tree: Document)
    requires
        old(table).well_formed(),
    ensures
        final(table).well_formed(),
        (tree@, final(table)@) == encode(old(table)@, Json::Array(views(items@))),
    decreases items,
{
    let ghost start = table@;
    let ghost docs = views(items@);
    let mut trees: Vec<Document> = Vec::new();
    let mut i: usize = 0;
    assert(docs.take(0) =~= Seq::empty());
    while i < items.len()
        invariant
            i <= items.len(),
            docs == views(items@),
            table.well_formed(),
            (views(trees@), table@) == encode_items(start, docs.take(i as int)),
        decreases items.len() - i,
    {
        assert(decreases_to!(*items => items[i as int]));
        let tree = get_value(table, &items[i]);
        trees.push(tree);
        proof {
            let done = docs.take(i + 1);
            assert(done.drop_last() =~= docs.take(i as int));
            assert(done.last() == items[i as int]@);
            assert(views(trees@) =~= encode_items(start, docs.take(i as int)).0.push(tree@));
        }
        i += 1;
    }
    assert(docs.take(items.len() as int) =~= docs);
    Document::Array(trees)
}

/// Encodes the members of an object, first to last: the key of each becomes
/// the text of its index in the table, and what it holds is encoded.
fn get_object_value(table: &mut RefTable, members: &Vec<(String, Document)>) -> (tree: Document)
    requires
        old(table).well_formed(),
    ensures
        final(table).well_formed(),
        (tree@, final(table)@) == encode(old(table)@, Json::Object(member_views(members@))),
    decreases members,
{
    let ghost start = table@;
    let ghost docs = member_views(members@);
    let mut trees: Vec<(String, Document)> = Vec::new();
    let mut i: usize = 0;
    assert(docs.take(0) =~= Seq::empty());
    while i < members.len()
        invariant
            i <= members.len(),
            docs == member_views(members@),
            table.well_formed(),
            (member_views(trees@), table@) == encode_members(start, docs.take(i as int)),
        decreases members.len() - i,
    {
        assert(decreases_to!(*members => members[i as int]));
        let key = Document::String(members[i].0.clone());
        let index: usize = match table.intern(&key) {
            Ok(index) => index,
            Err(_) => vstd::pervasive::unreached(),
        };
        let tree = get_value(table, &members[i].1);
        trees.push((index_text(index), tree));
        proof {
            let done = docs.take(i + 1);
            assert(done.drop_last() =~= docs.take(i as int));
            assert(done.last() == (members[i as int].0@, members[i as int].1@));
            assert(member_views(trees@) =~= encode_members(start, docs.take(i as int)).0.push(
                (decimal_text(index as nat), tree@),
            ));
        }
        i += 1;
    }
    assert(docs.take(members.len() as int) =~= docs);
    Document::Object(trees)
}

/// Encodes a document: an array and an object by their parts, and a scalar
/// by its index.
fn get_value(table: &mut RefTable, doc: &Document) -> (tree: Document)
    requires
        old(table).well_formed(),
    ensures
        final(table).well_formed(),
        (tree@, final(table)@) == encode(old(table)@, doc@),
    decreases doc,
{
    match doc {
        Document::Array(items) => get_array_value(table, items),
        Document::Object(members) => get_object_value(table, members),
        _ => get_number_index(table, doc),
    }
}

/// Compresses a document: the array of its rewritten tree and its reference
/// list.
///
/// The reference list holds scalars only and none twice, the indices
/// written in the tree are exactly its places, and decompressing the result
/// gives the document back.
pub fn compress_document(doc: &Document) -> (packed: Document)
    ensures
        packed@ == compressed(doc@),
        references(doc@).no_duplicates(),
        all_scalars(references(doc@)),
        forall|index: nat| mentions(rewritten(doc@), index) <==> index < references(doc@).len(),
        decompressed(packed@) == Ok::<Json, Json>(doc@),
{
    let mut table = RefTable::new();
    let tree = get_value(&mut table, doc);
    let list = table.into_list();
    let mut parts: Vec<Document> = Vec::new();
    parts.push(tree);
    parts.push(Document::Array(list));
    proof {
        lemma_references_distinct(doc@);
        lemma_indices_exact(doc@);
        lemma_round_trip(doc@);
        assert(views(parts@) =~= seq![rewritten(doc@), Json::Array(references(doc@))]);
    }
    Document::Array(parts)
}

/// A document that is to be compressed.
#[derive(Debug)]
pub struct Compressor {
    input: Document,
}

impl Compressor {
    /// The document that is to be compressed.
    pub closed spec fn document(&self) -> Json {
        self.input@
    }

    /// Reads the document from JSON text. Fails with the parser's message
    /// where the text is not JSON.
    pub fn new(value: &str) -> (made: Result<Compressor, Error>)
        ensures
            match made {
                Ok(compressor) => parsed(value@) == Ok::<Json, Seq<char>>(compressor.document()),
                Err(Error::JSONError(message)) => parsed(value@) == Err::<Json, Seq<char>>(
                    message@,
                ),
                Err(_) => false,
            },
    {
        match read_document(value) {
            Ok(input) => Ok(Compressor { input }),
            Err(message) => Err(Error::JSONError(message)),
        }
    }

    /// The JSON text of the compressed form of the document.
    pub fn compress(self) -> (outcome: Result<String, Error>)
        ensures
            outcome matches Ok(text) && text@ == rendered(compressed(self.document())),
    {
        let packed = compress_document(&self.input);
        Ok(write_document(&packed))
    }
}

/// Compresses JSON text: the text of the compressed form of the document
/// that it parses to. Fails with the parser's message where it is not JSON.
pub fn compress_json(json: &str) -> (outcome: Result<String, Error>)
    ensures
        match parsed(json@) {
            Ok(doc) => outcome matches Ok(text) && text@ == rendered(compressed(doc)),
            Err(message) => outcome matches Err(Error::JSONError(told)) && told@ == message,
        },
{
    match Compressor::new(json) {
        Ok(compressor) => compressor.compress(),
        Err(error) => Err(error),
    }
}

} // verus!

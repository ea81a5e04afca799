//! Decompression: the indices of a rewritten tree are resolved against the
//! reference list that came with it.

use vstd::prelude::*;
use crate::decimal::{index_value, parse_index};
use crate::error::Error;
use crate::json::{member_views, number_text, views, Document, Json};
use crate::text::{parsed, read_document, rendered, write_document};

verus! {

/// The entry of `refs` that `text` names: `text` writes an index, and the
/// index is within the list.
pub open spec fn resolved(refs: Seq<Json>, text: Seq<char>) -> Option<Json> {
    match index_value(text) {
        Some(index) => if index < refs.len() {
            Some(refs[index as int])
        } else {
            None
        },
        None => None,
    }
}

/// What decoding `tree` against `refs` yields: the document, or the first
/// part of the tree, in reading order, that names no entry.
///
/// An array keeps its shape and an object its members in order. A key is
/// replaced by the string that it names, and a leaf, a number or a string, by
/// the entry that it names. A key that names no string and a leaf that names
/// no entry fail, and so does a leaf that is null or a boolean.
pub open spec fn decode(refs: Seq<Json>, tree: Json) -> Result<Json, Json>
    decreases tree, 0nat,
{
    match tree {
        Json::Array(items) => match decode_items(refs, items) {
            Ok(docs) => Ok(Json::Array(docs)),
            Err(culprit) => Err(culprit),
        },
        Json::Object(members) => match decode_members(refs, members) {
            Ok(docs) => Ok(Json::Object(docs)),
            Err(culprit) => Err(culprit),
        },
        Json::Number(text) => match resolved(refs, text) {
            Some(entry) => Ok(entry),
            None => Err(tree),
        },
        Json::String(text) => match resolved(refs, text) {
            Some(entry) => Ok(entry),
            None => Err(tree),
        },
        _ => Err(tree),
    }
}

/// `decode` over the items of an array, first to last.
pub open spec fn decode_items(refs: Seq<Json>, items: Seq<Json>) -> Result<Seq<Json>, Json>
    decreases items, 1nat,
{
    if items.len() == 0 {
        Ok(Seq::empty())
    } else {
        match decode_items(refs, items.drop_last()) {
            Ok(docs) => match decode(refs, items.last()) {
                Ok(doc) => Ok(docs.push(doc)),
                Err(culprit) => Err(culprit),
            },
            Err(culprit) => Err(culprit),
        }
    }
}

/// `decode` over the members of an object, first to last: of each member the
/// key is resolved first, then what it holds is decoded. The culprit of a key
/// that names no string is the key, as a string. Two keys that name the same
/// string give two members with that key, one after the other.
pub open spec fn decode_members(refs: Seq<Json>, members: Seq<(Seq<char>, Json)>) -> Result<
    Seq<(Seq<char>, Json)>,
    Json,
>
    decreases members, 1nat,
{
    if members.len() == 0 {
        Ok(Seq::empty())
    } else {
        match decode_members(refs, members.drop_last()) {
            Ok(docs) => match resolved(refs, members.last().0) {
                Some(Json::String(key)) => match decode(refs, members.last().1) {
                    Ok(doc) => Ok(docs.push((key, doc))),
                    Err(culprit) => Err(culprit),
                },
                _ => Err(Json::String(members.last().0)),
            },
            Err(culprit) => Err(culprit),
        }
    }
}

/// Whether `doc` has the shape of a compressed document: an array of exactly
/// two elements.
pub open spec fn is_packed(doc: Json) -> bool {
    doc matches Json::Array(parts) && parts.len() == 2
}

/// The reference list that a compressed document carries: its second
/// element where that is an array, and the empty list where it is not.
pub open spec fn carried_refs(doc: Json) -> Seq<Json> {
    match doc->Array_0[1] {
        Json::Array(refs) => refs,
        _ => Seq::empty(),
    }
}

/// What decompressing `doc` yields. A document that has not the shape of a
/// compressed one is returned as it is; of one that has, the first element
/// is decoded against the reference list that it carries.
pub open spec fn decompressed(doc: Json) -> Result<Json, Json> {
    if is_packed(doc) {
        decode(carried_refs(doc), doc->Array_0[0])
    } else {
        Ok(doc)
    }
}

/// Whether `outcome` is what `expected` asks for: the document, or the error
/// that carries the JSON text of the culprit.
pub open spec fn matches_decoded(
    outcome: Result<Document, Error>,
    expected: Result<Json, Json>,
) -> bool {
    match expected {
        Ok(doc) => outcome matches Ok(made) && made@ == doc,
        Err(culprit) => outcome matches Err(Error::UnknownJSONValueRef(text)) && text@
            == rendered(culprit),
    }
}

/// The entry of `refs` that `text` names.
fn find_entry<'a>(refs: &'a Vec<Document>, text: &str) -> (found: Option<&'a Document>)
    ensures
        match resolved(views(refs@), text@) {
            Some(entry) => found matches Some(held) && held@ == entry,
            None => found is None,
        },
{
    assert(views(refs@).len() == refs.len());
    match parse_index(text) {
        Some(index) => if index < refs.len() {
            assert(views(refs@)[index as int] == refs[index as int]@);
            Some(&refs[index])
        } else {
            None
        },
        None => None,
    }
}

/// The error for a part of a tree that names no entry.
fn unknown_reference(culprit: &Document) -> (error: Error)
    ensures
        error matches Error::UnknownJSONValueRef(text) && text@ == rendered(culprit@),
{
    Error::UnknownJSONValueRef(write_document(culprit))
}

/// Decodes a leaf: the entry that a number or a string names.
fn find_value_by_ref(refs: &Vec<Document>, value: &Document) -> (outcome: Result<Document, Error>)
    requires
        value@.is_scalar(),
    ensures
        matches_decoded(outcome, decode(views(refs@), value@)),
{
    let found = match value {
        Document::Number(n) => {
            let text = number_text(n);
            find_entry(refs, text.as_str())
        },
        Document::String(s) => find_entry(refs, s.as_str()),
        _ => None,
    };
    match found {
        Some(entry) => Ok(entry.clone()),
        None => Err(unknown_reference(value)),
    }
}

/// Decodes the items of an array, first to last.
fn find_array_value_by_ref(refs: &Vec<Document>, items: &Vec<Document>) -> (outcome: Result<
    Document,
    Error,
>)
    ensures
        matches_decoded(outcome, decode(views(refs@), Json::Array(views(items@)))),
    decreases items,
{
    let ghost trees = views(items@);
    let mut docs: Vec<Document> = Vec::new();
    let mut i: usize = 0;
    assert(trees.take(0) =~= Seq::empty());
    assert(views(docs@) =~= Seq::empty());
    while i < items.len()
        invariant
            i <= items.len(),
            trees == views(items@),
            decode_items(views(refs@), trees.take(i as int)) == Ok::<Seq<Json>, Json>(
                views(docs@),
            ),
        decreases items.len() - i,
    {
        assert(decreases_to!(*items => items[i as int]));
        let ghost done = trees.take(i + 1);
        assert(done.drop_last() =~= trees.take(i as int));
        assert(done.last() == items[i as int]@);
        match find_by_ref(refs, &items[i]) {
            Ok(doc) => {
                docs.push(doc);
                assert(views(docs@) =~= decode_items(
                    views(refs@),
                    trees.take(i as int),
                )->Ok_0.push(doc@));
            },
            Err(error) => {
                proof {
                    lemma_decode_items_fails(views(refs@), trees, i + 1);
                }
                return Err(error);
            },
        }
        i += 1;
    }
    assert(trees.take(items.len() as int) =~= trees);
    Ok(Document::Array(docs))
}

/// Decodes the members of an object, first to last: the key of each becomes
/// the string that it names, and what it holds is decoded.
fn find_object_value_by_ref(refs: &Vec<Document>, members: &Vec<(String, Document)>) -> (outcome:
    Result<Document, Error>)
    ensures
        matches_decoded(outcome, decode(views(refs@), Json::Object(member_views(members@)))),
    decreases members,
{
    let ghost trees = member_views(members@);
    let mut docs: Vec<(String, Document)> = Vec::new();
    let mut i: usize = 0;
    assert(trees.take(0) =~= Seq::empty());
    assert(member_views(docs@) =~= Seq::empty());
    while i < members.len()
        invariant
            i <= members.len(),
            trees == member_views(members@),
            decode_members(views(refs@), trees.take(i as int)) == Ok::<
                Seq<(Seq<char>, Json)>,
                Json,
            >(member_views(docs@)),
        decreases members.len() - i,
    {
        assert(decreases_to!(*members => members[i as int]));
        let ghost done = trees.take(i + 1);
        assert(done.drop_last() =~= trees.take(i as int));
        assert(done.last() == (members[i as int].0@, members[i as int].1@));
        let key: String = match find_entry(refs, members[i].0.as_str()) {
            Some(Document::String(name)) => name.clone(),
            _ => {
                proof {
                    lemma_decode_members_fails(views(refs@), trees, i + 1);
                }
                return Err(unknown_reference(&Document::String(members[i].0.clone())));
            },
        };
        match find_by_ref(refs, &members[i].1) {
            Ok(doc) => {
                docs.push((key, doc));
                assert(member_views(docs@) =~= decode_members(
                    views(refs@),
                    trees.take(i as int),
                )->Ok_0.push((key@, doc@)));
            },
            Err(error) => {
                proof {
                    lemma_decode_members_fails(views(refs@), trees, i + 1);
                }
                return Err(error);
            },
        }
        i += 1;
    }
    assert(trees.take(members.len() as int) =~= trees);
    Ok(Document::Object(docs))
}

/// Decodes a tree: an array and an object by their parts, and a leaf by the
/// entry that it names.
fn find_by_ref(refs: &Vec<Document>, tree: &Document) -> (outcome: Result<Document, Error>)
    ensures
        matches_decoded(outcome, decode(views(refs@), tree@)),
    decreases tree,
{
    match tree {
        Document::Array(items) => find_array_value_by_ref(refs, items),
        Document::Object(members) => find_object_value_by_ref(refs, members),
        _ => find_value_by_ref(refs, tree),
    }
}

/// Where decoding the first `n` items fails, decoding all of them fails with
/// the same culprit.
proof fn lemma_decode_items_fails(refs: Seq<Json>, items: Seq<Json>, n: int)
    requires
        0 <= n <= items.len(),
        decode_items(refs, items.take(n)) is Err,
    ensures
        decode_items(refs, items) == decode_items(refs, items.take(n)),
    decreases items.len() - n,
{
    if n == items.len() {
        assert(items.take(n) =~= items);
    } else {
        assert(items.take(n + 1).drop_last() =~= items.take(n));
        lemma_decode_items_fails(refs, items, n + 1);
    }
}

/// Where decoding the first `n` members fails, decoding all of them fails
/// with the same culprit.
proof fn lemma_decode_members_fails(refs: Seq<Json>, members: Seq<(Seq<char>, Json)>, n: int)
    requires
        0 <= n <= members.len(),
        decode_members(refs, members.take(n)) is Err,
    ensures
        decode_members(refs, members) == decode_members(refs, members.take(n)),
    decreases members.len() - n,
{
    if n == members.len() {
        assert(members.take(n) =~= members);
    } else {
        assert(members.take(n + 1).drop_last() =~= members.take(n));
        lemma_decode_members_fails(refs, members, n + 1);
    }
}

/// Decompresses a document. One that is not an array of exactly two
/// elements is returned as it is. Of one that is, the first element is
/// decoded against the second, the reference list, or against the empty
/// list where the second is no array; a part of it that names no entry
/// fails with the JSON text of that part.
pub fn decompress_document(doc: &Document) -> (outcome: Result<Document, Error>)
    ensures
        matches_decoded(outcome, decompressed(doc@)),
        !is_packed(doc@) ==> (outcome matches Ok(same) && same@ == doc@),
{
    match doc {
        Document::Array(parts) => {
            if parts.len() == 2 {
                assert(views(parts@)[0] == parts[0]@);
                assert(views(parts@)[1] == parts[1]@);
                match &parts[1] {
                    Document::Array(refs) => find_by_ref(refs, &parts[0]),
                    _ => {
                        let refs: Vec<Document> = Vec::new();
                        assert(views(refs@) =~= Seq::empty());
                        find_by_ref(&refs, &parts[0])
                    },
                }
            } else {
                Ok(doc.clone())
            }
        },
        _ => Ok(doc.clone()),
    }
}

/// A document that is to be decompressed.
#[derive(Debug)]
pub struct Decompressor {
    input: Document,
}

impl Decompressor {
    /// The document that is to be decompressed.
    pub closed spec fn document(&self) -> Json {
        self.input@
    }

    /// Reads the document from JSON text. Fails with the parser's message
    /// where the text is not JSON.
    pub fn new(value: &str) -> (made: Result<Decompressor, Error>)
        ensures
            match made {
                Ok(decompressor) => parsed(value@) == Ok::<Json, Seq<char>>(
                    decompressor.document(),
                ),
                Err(Error::JSONError(message)) => parsed(value@) == Err::<Json, Seq<char>>(
                    message@,
                ),
                Err(_) => false,
            },
    {
        match read_document(value) {
            Ok(input) => Ok(Decompressor { input }),
            Err(message) => Err(Error::JSONError(message)),
        }
    }

    /// The JSON text of the decompressed document; the document itself is
    /// kept as it is.
    pub fn decompress(&mut self) -> (outcome: Result<String, Error>)
        ensures
            final(self).document() == old(self).document(),
            match decompressed(old(self).document()) {
                Ok(doc) => outcome matches Ok(text) && text@ == rendered(doc),
                Err(culprit) => outcome matches Err(Error::UnknownJSONValueRef(text)) && text@
                    == rendered(culprit),
            },
    {
        match decompress_document(&self.input) {
            Ok(doc) => Ok(write_document(&doc)),
            Err(error) => Err(error),
        }
    }
}

/// Decompresses JSON text: the text of what the document that it parses to
/// decompresses to. Fails with the parser's message where it is not JSON,
/// and with the text of the culprit where a part of the document names no
/// entry of its reference list.
pub fn decompress_json(json: &str) -> (outcome: Result<String, Error>)
    ensures
        match parsed(json@) {
            Ok(packed) => match decompressed(packed) {
                Ok(doc) => outcome matches Ok(text) && text@ == rendered(doc),
                Err(culprit) => outcome matches Err(Error::UnknownJSONValueRef(text)) && text@
                    == rendered(culprit),
            },
            Err(message) => outcome matches Err(Error::JSONError(told)) && told@ == message,
        },
{
    match Decompressor::new(json) {
        Ok(decompressor) => {
            let mut decompressor = decompressor;
            decompressor.decompress()
        },
        Err(error) => Err(error),
    }
}

} // verus!

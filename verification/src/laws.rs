//! What holds of compression and decompression together.

use vstd::prelude::*;
use crate::compress::{compressed, encode, encode_items, encode_members, references, rewritten};
use crate::decimal::{decimal_text, index_value, lemma_index_value_of_decimal_text};
use crate::decompress::{decode, decode_items, decode_members, decompressed, is_packed, resolved};
use crate::json::Json;
use crate::table::{
    all_scalars, extends, interned, lemma_interned_distinct, lemma_interned_extends,
};

verus! {

/// Whether the index `index` is written somewhere in `tree`: as a key, or as
/// a leaf that is a number or a string.
pub open spec fn mentions(tree: Json, index: nat) -> bool
    decreases tree,
{
    match tree {
        Json::Array(items) => exists|i: int|
            0 <= i < items.len() && mentions(#[trigger] items[i], index),
        Json::Object(members) => exists|i: int|
            0 <= i < members.len() && (index_value((#[trigger] members[i]).0) == Some(index)
                || mentions(members[i].1, index)),
        Json::Number(text) => index_value(text) == Some(index),
        Json::String(text) => index_value(text) == Some(index),
        _ => false,
    }
}

/// An index written in an item of an array is written in the array.
proof fn lemma_mentions_item(items: Seq<Json>, i: int, index: nat)
    requires
        0 <= i < items.len(),
        mentions(items[i], index),
    ensures
        mentions(Json::Array(items), index),
{
    assert(Json::Array(items)->Array_0[i] == items[i]);
}

/// An index written in a member of an object, as its key or in what it
/// holds, is written in the object.
proof fn lemma_mentions_member(members: Seq<(Seq<char>, Json)>, i: int, index: nat)
    requires
        0 <= i < members.len(),
        index_value(members[i].0) == Some(index) || mentions(members[i].1, index),
    ensures
        mentions(Json::Object(members), index),
{
}

/// Encoding keeps the entries that were in the list, in their places.
pub proof fn lemma_encode_extends(refs: Seq<Json>, doc: Json)
    ensures
        extends(encode(refs, doc).1, refs),
    decreases doc, 0nat,
{
    match doc {
        Json::Array(items) => lemma_encode_items_extends(refs, items),
        Json::Object(members) => lemma_encode_members_extends(refs, members),
        _ => lemma_interned_extends(refs, doc),
    }
}

/// The same, over the items of an array.
proof fn lemma_encode_items_extends(refs: Seq<Json>, items: Seq<Json>)
    ensures
        extends(encode_items(refs, items).1, refs),
        encode_items(refs, items).0.len() == items.len(),
    decreases items, 1nat,
{
    if items.len() > 0 {
        lemma_encode_items_extends(refs, items.drop_last());
        lemma_encode_extends(encode_items(refs, items.drop_last()).1, items.last());
    }
}

/// The same, over the members of an object.
proof fn lemma_encode_members_extends(refs: Seq<Json>, members: Seq<(Seq<char>, Json)>)
    ensures
        extends(encode_members(refs, members).1, refs),
        encode_members(refs, members).0.len() == members.len(),
    decreases members, 1nat,
{
    if members.len() > 0 {
        lemma_encode_members_extends(refs, members.drop_last());
        let refs1 = encode_members(refs, members.drop_last()).1;
        lemma_interned_extends(refs1, Json::String(members.last().0));
        let refs2 = interned(refs1, Json::String(members.last().0)).0;
        lemma_encode_extends(refs2, members.last().1);
    }
}

/// Encoding a document into a list of distinct scalars leaves it one.
pub proof fn lemma_encode_distinct(refs: Seq<Json>, doc: Json)
    requires
        refs.no_duplicates(),
        all_scalars(refs),
    ensures
        encode(refs, doc).1.no_duplicates(),
        all_scalars(encode(refs, doc).1),
    decreases doc, 0nat,
{
    match doc {
        Json::Array(items) => lemma_encode_items_distinct(refs, items),
        Json::Object(members) => lemma_encode_members_distinct(refs, members),
        _ => lemma_interned_distinct(refs, doc),
    }
}

/// The same, over the items of an array.
proof fn lemma_encode_items_distinct(refs: Seq<Json>, items: Seq<Json>)
    requires
        refs.no_duplicates(),
        all_scalars(refs),
    ensures
        encode_items(refs, items).1.no_duplicates(),
        all_scalars(encode_items(refs, items).1),
    decreases items, 1nat,
{
    if items.len() > 0 {
        lemma_encode_items_distinct(refs, items.drop_last());
        lemma_encode_distinct(encode_items(refs, items.drop_last()).1, items.last());
    }
}

/// The same, over the members of an object.
proof fn lemma_encode_members_distinct(refs: Seq<Json>, members: Seq<(Seq<char>, Json)>)
    requires
        refs.no_duplicates(),
        all_scalars(refs),
    ensures
        encode_members(refs, members).1.no_duplicates(),
        all_scalars(encode_members(refs, members).1),
    decreases members, 1nat,
{
    if members.len() > 0 {
        lemma_encode_members_distinct(refs, members.drop_last());
        let refs1 = encode_members(refs, members.drop_last()).1;
        lemma_interned_distinct(refs1, Json::String(members.last().0));
        let refs2 = interned(refs1, Json::String(members.last().0)).0;
        lemma_encode_distinct(refs2, members.last().1);
    }
}

/// Decoding what encoding wrote gives the document back, against the list
/// that encoding left or any list that extends it.
pub proof fn lemma_encode_decode(refs: Seq<Json>, doc: Json, later: Seq<Json>)
    requires
        extends(later, encode(refs, doc).1),
    ensures
        decode(later, encode(refs, doc).0) == Ok::<Json, Json>(doc),
    decreases doc, 0nat,
{
    match doc {
        Json::Array(items) => {
            lemma_encode_items_decode(refs, items, later);
        },
        Json::Object(members) => {
            lemma_encode_members_decode(refs, members, later);
        },
        _ => {
            lemma_interned_extends(refs, doc);
            lemma_index_value_of_decimal_text(interned(refs, doc).1);
        },
    }
}

/// The same, over the items of an array.
proof fn lemma_encode_items_decode(refs: Seq<Json>, items: Seq<Json>, later: Seq<Json>)
    requires
        extends(later, encode_items(refs, items).1),
    ensures
        decode_items(later, encode_items(refs, items).0) == Ok::<Seq<Json>, Json>(items),
    decreases items, 1nat,
{
    if items.len() == 0 {
        assert(items =~= Seq::empty());
    } else {
        let front = items.drop_last();
        let (trees, refs1) = encode_items(refs, front);
        let (tree, refs2) = encode(refs1, items.last());
        lemma_encode_extends(refs1, items.last());
        lemma_encode_items_decode(refs, front, later);
        lemma_encode_decode(refs1, items.last(), later);
        assert(trees.push(tree).drop_last() =~= trees);
        assert(front.push(items.last()) =~= items);
    }
}

/// The same, over the members of an object.
proof fn lemma_encode_members_decode(
    refs: Seq<Json>,
    members: Seq<(Seq<char>, Json)>,
    later: Seq<Json>,
)
    requires
        extends(later, encode_members(refs, members).1),
    ensures
        decode_members(later, encode_members(refs, members).0) == Ok::<
            Seq<(Seq<char>, Json)>,
            Json,
        >(members),
    decreases members, 1nat,
{
    if members.len() == 0 {
        assert(members =~= Seq::empty());
    } else {
        let front = members.drop_last();
        let (key, held) = members.last();
        let (trees, refs1) = encode_members(refs, front);
        let (refs2, index) = interned(refs1, Json::String(key));
        let (tree, refs3) = encode(refs2, held);
        lemma_interned_extends(refs1, Json::String(key));
        lemma_encode_extends(refs2, held);
        lemma_encode_members_decode(refs, front, later);
        lemma_index_value_of_decimal_text(index);
        lemma_encode_decode(refs2, held, later);
        let written = trees.push((decimal_text(index), tree));
        assert(written.drop_last() =~= trees);
        assert(resolved(later, written.last().0) == Some(Json::String(key)));
        assert(front.push((key, held)) =~= members);
    }
}

/// Every index that encoding writes is within the list that it leaves, and
/// every entry that it adds to the list is written.
pub proof fn lemma_encode_mentions(refs: Seq<Json>, doc: Json, index: nat)
    ensures
        mentions(encode(refs, doc).0, index) ==> index < encode(refs, doc).1.len(),
        refs.len() <= index < encode(refs, doc).1.len() ==> mentions(encode(refs, doc).0, index),
    decreases doc, 0nat,
{
    match doc {
        Json::Array(items) => {
            lemma_encode_items_mentions(refs, items, index);
        },
        Json::Object(members) => {
            lemma_encode_members_mentions(refs, members, index);
        },
        _ => {
            lemma_interned_extends(refs, doc);
            lemma_index_value_of_decimal_text(interned(refs, doc).1);
        },
    }
}

/// The same, over the items of an array.
proof fn lemma_encode_items_mentions(refs: Seq<Json>, items: Seq<Json>, index: nat)
    ensures
        mentions(Json::Array(encode_items(refs, items).0), index) ==> index < encode_items(
            refs,
            items,
        ).1.len(),
        refs.len() <= index < encode_items(refs, items).1.len() ==> mentions(
            Json::Array(encode_items(refs, items).0),
            index,
        ),
    decreases items, 1nat,
{
    if items.len() > 0 {
        let front = items.drop_last();
        let (trees, refs1) = encode_items(refs, front);
        let (tree, refs2) = encode(refs1, items.last());
        let written = trees.push(tree);
        lemma_encode_items_mentions(refs, front, index);
        lemma_encode_mentions(refs1, items.last(), index);
        lemma_encode_items_extends(refs, front);
        lemma_encode_extends(refs1, items.last());
        if mentions(Json::Array(written), index) {
            let i = choose|i: int| 0 <= i < written.len() && mentions(#[trigger] written[i], index);
            if i < trees.len() {
                lemma_mentions_item(trees, i, index);
            }
        }
        if refs.len() <= index < refs2.len() {
            if index < refs1.len() {
                let i = choose|i: int| 0 <= i < trees.len() && mentions(#[trigger] trees[i], index);
                lemma_mentions_item(written, i, index);
            } else {
                lemma_mentions_item(written, trees.len() as int, index);
            }
        }
    }
}

/// The same, over the members of an object.
proof fn lemma_encode_members_mentions(
    refs: Seq<Json>,
    members: Seq<(Seq<char>, Json)>,
    index: nat,
)
    ensures
        mentions(Json::Object(encode_members(refs, members).0), index) ==> index
            < encode_members(refs, members).1.len(),
        refs.len() <= index < encode_members(refs, members).1.len() ==> mentions(
            Json::Object(encode_members(refs, members).0),
            index,
        ),
    decreases members, 1nat,
{
    if members.len() > 0 {
        let front = members.drop_last();
        let (key, held) = members.last();
        let (trees, refs1) = encode_members(refs, front);
        let (refs2, at) = interned(refs1, Json::String(key));
        let (tree, refs3) = encode(refs2, held);
        let written = trees.push((decimal_text(at), tree));
        lemma_encode_members_mentions(refs, front, index);
        lemma_encode_mentions(refs2, held, index);
        lemma_encode_members_extends(refs, front);
        lemma_interned_extends(refs1, Json::String(key));
        lemma_encode_extends(refs2, held);
        lemma_index_value_of_decimal_text(at);
        if mentions(Json::Object(written), index) {
            let i = choose|i: int|
                0 <= i < written.len() && (index_value((#[trigger] written[i]).0) == Some(index)
                    || mentions(written[i].1, index));
            if i < trees.len() {
                lemma_mentions_member(trees, i, index);
            }
        }
        if refs.len() <= index < refs3.len() {
            if index < refs1.len() {
                let i = choose|i: int|
                    0 <= i < trees.len() && (index_value((#[trigger] trees[i]).0) == Some(index)
                        || mentions(trees[i].1, index));
                lemma_mentions_member(written, i, index);
            } else {
                lemma_mentions_member(written, trees.len() as int, index);
            }
        }
    }
}

/// Decompressing the compressed form of a document gives the document back.
pub proof fn lemma_round_trip(doc: Json)
    ensures
        decompressed(compressed(doc)) == Ok::<Json, Json>(doc),
{
    lemma_encode_decode(Seq::empty(), doc, references(doc));
}

/// The reference list of a document holds scalars only, and none of them
/// twice.
pub proof fn lemma_references_distinct(doc: Json)
    ensures
        references(doc).no_duplicates(),
        all_scalars(references(doc)),
{
    lemma_encode_distinct(Seq::empty(), doc);
}

/// The indices written in the rewritten tree of a document are exactly the
/// places of its reference list: each is within the list, and each entry of
/// the list is named.
pub proof fn lemma_indices_exact(doc: Json)
    ensures
        forall|index: nat| mentions(rewritten(doc), index) <==> index < references(doc).len(),
{
    assert forall|index: nat| mentions(rewritten(doc), index) <==> index < references(
        doc,
    ).len() by {
        lemma_encode_mentions(Seq::empty(), doc, index);
    }
}

/// A document that is not an array of exactly two elements decompresses to
/// itself.
pub proof fn lemma_pass_through(doc: Json)
    requires
        !is_packed(doc),
    ensures
        decompressed(doc) == Ok::<Json, Json>(doc),
{
}

} // verus!

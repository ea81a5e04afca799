//! The reference table: every distinct scalar once, in the order in which it
//! was first met, found again through a hash of its content.

use std::collections::HashMap;
use vstd::prelude::*;
use vstd::std_specs::hash::group_hash_axioms;
use vstd::string::StringExecFns;
use vstd::utf8::encode_utf8;
use crate::error::Error;
use crate::json::{number_text, views, Document, Json};
use crate::text::{rendered, write_document};

verus! {

broadcast use group_hash_axioms;

/// What `seahash::hash` returns for the given bytes.
pub uninterp spec fn seahash_of(bytes: Seq<u8>) -> u64;

/// `seahash::hash`.
#[verifier::external_body]
fn seahash(bytes: &[u8]) -> (hash: u64)
    ensures
        hash == seahash_of(bytes@),
{
    seahash::hash(bytes)
}

/// The content key of a scalar: the name of its type, then its text.
pub open spec fn content_key(scalar: Json) -> Seq<char> {
    match scalar {
        Json::Null => "null"@,
        Json::Bool(b) => if b {
            "bool:true"@
        } else {
            "bool:false"@
        },
        Json::Number(text) => "number:"@ + text,
        Json::String(text) => "string:"@ + text,
        _ => Seq::empty(),
    }
}

/// The hash under which a scalar is filed: that of its content key in UTF-8.
pub open spec fn content_hash(scalar: Json) -> u64 {
    seahash_of(encode_utf8(content_key(scalar)))
}

/// The first place at which `scalar` stands in `refs`, if it stands there.
pub open spec fn position(refs: Seq<Json>, scalar: Json) -> Option<nat>
    decreases refs.len(),
{
    if refs.len() == 0 {
        None
    } else {
        match position(refs.drop_last(), scalar) {
            Some(i) => Some(i),
            None => if refs.last() == scalar {
                Some((refs.len() - 1) as nat)
            } else {
                None
            },
        }
    }
}

/// The reference list after `scalar` was looked up in `refs`, and its index:
/// the place at which it already stood, or else the end, where it is added.
pub open spec fn interned(refs: Seq<Json>, scalar: Json) -> (Seq<Json>, nat) {
    match position(refs, scalar) {
        Some(i) => (refs, i),
        None => (refs.push(scalar), refs.len()),
    }
}

/// Whether `later` holds every entry of `earlier` at its place, and perhaps
/// more after them.
pub open spec fn extends(later: Seq<Json>, earlier: Seq<Json>) -> bool {
    earlier.len() <= later.len() && forall|i: int|
        0 <= i < earlier.len() ==> later[i] == earlier[i]
}

/// Whether every entry of `refs` is a scalar.
pub open spec fn all_scalars(refs: Seq<Json>) -> bool {
    forall|i: int| 0 <= i < refs.len() ==> (#[trigger] refs[i]).is_scalar()
}

/// Where `position` finds a scalar, it stands, and nowhere before.
pub proof fn lemma_position_found(refs: Seq<Json>, scalar: Json)
    ensures
        match position(refs, scalar) {
            Some(i) => i < refs.len() && refs[i as int] == scalar && forall|j: int|
                0 <= j < i ==> refs[j] != scalar,
            None => forall|j: int| 0 <= j < refs.len() ==> refs[j] != scalar,
        },
    decreases refs.len(),
{
    if refs.len() > 0 {
        let front = refs.drop_last();
        lemma_position_found(front, scalar);
        assert forall|j: int| 0 <= j < front.len() implies front[j] == refs[j] by {}
        match position(front, scalar) {
            Some(i) => {
                assert(front[i as int] == refs[i as int]);
            },
            None => {
                assert forall|j: int| 0 <= j < front.len() implies refs[j] != scalar by {
                    assert(front[j] != scalar);
                }
            },
        }
    }
}

/// Looking a scalar up keeps the entries that were there, in their places,
/// and the index it returns holds the scalar.
pub proof fn lemma_interned_extends(refs: Seq<Json>, scalar: Json)
    ensures
        extends(interned(refs, scalar).0, refs),
        interned(refs, scalar).1 < interned(refs, scalar).0.len(),
        interned(refs, scalar).0[interned(refs, scalar).1 as int] == scalar,
        interned(refs, scalar).0.len() <= refs.len() + 1,
{
    lemma_position_found(refs, scalar);
}

/// Looking a scalar up in a list of distinct scalars leaves it one.
pub proof fn lemma_interned_distinct(refs: Seq<Json>, scalar: Json)
    requires
        refs.no_duplicates(),
        all_scalars(refs),
        scalar.is_scalar(),
    ensures
        interned(refs, scalar).0.no_duplicates(),
        all_scalars(interned(refs, scalar).0),
{
    lemma_position_found(refs, scalar);
}

/// The content key of a scalar.
fn key_of(scalar: &Document) -> (key: String)
    requires
        scalar@.is_scalar(),
    ensures
        key@ == content_key(scalar@),
{
    match scalar {
        Document::Null => String::from_str("null"),
        Document::Bool(b) => if *b {
            String::from_str("bool:true")
        } else {
            String::from_str("bool:false")
        },
        Document::Number(n) => {
            let mut key = String::from_str("number:");
            let text = number_text(n);
            key.append(text.as_str());
            key
        },
        Document::String(s) => {
            let mut key = String::from_str("string:");
            key.append(s.as_str());
            key
        },
        _ => String::new(),
    }
}

/// The hash under which a scalar is filed.
fn hash_of(scalar: &Document) -> (hash: u64)
    requires
        scalar@.is_scalar(),
    ensures
        hash == content_hash(scalar@),
{
    let key = key_of(scalar);
    seahash(key.as_str().as_bytes())
}

/// The reference table of one compression.
#[derive(Debug)]
pub struct RefTable {
    /// The scalars, each at its index.
    entries: Vec<Document>,
    /// For each hash, the indices of the scalars that are filed under it.
    buckets: HashMap<u64, Vec<usize>>,
}

impl View for RefTable {
    type V = Seq<Json>;

    /// The reference list: the scalars in the order of their indices.
    closed spec fn view(&self) -> Seq<Json> {
        views(self.entries@)
    }
}

impl RefTable {
    /// Whether the table is sound: it holds scalars only, none of them
    /// twice, each is filed under its hash, and nothing else is filed.
    pub closed spec fn well_formed(&self) -> bool {
        &&& self@.no_duplicates()
        &&& all_scalars(self@)
        &&& forall|i: int|
            0 <= i < self.entries.len() ==> self.buckets@.contains_key(
                content_hash(#[trigger] self.entries[i]@),
            ) && self.buckets@[content_hash(self.entries[i]@)]@.contains(i as usize)
        &&& forall|hash: u64, j: int|
            self.buckets@.contains_key(hash) && 0 <= j < self.buckets@[hash].len()
                ==> #[trigger] self.buckets@[hash][j] < self.entries.len()
    }

    /// An empty table.
    pub fn new() -> (table: RefTable)
        ensures
            table.well_formed(),
            table@ == Seq::<Json>::empty(),
    {
        let table = RefTable { entries: Vec::new(), buckets: HashMap::new() };
        assert(table@ =~= Seq::<Json>::empty());
        table
    }

    /// The number of entries.
    pub fn len(&self) -> (len: usize)
        ensures
            len == self@.len(),
    {
        self.entries.len()
    }

    /// The index at which the table holds `scalar`, looked for among the
    /// entries that are filed under its hash.
    fn lookup(&self, hash: u64, scalar: &Document) -> (found: Option<usize>)
        requires
            self.well_formed(),
            scalar@.is_scalar(),
            hash == content_hash(scalar@),
        ensures
            match found {
                Some(index) => position(self@, scalar@) == Some(index as nat),
                None => position(self@, scalar@) is None,
            },
    {
        proof {
            lemma_position_found(self@, scalar@);
        }
        match self.buckets.get(&hash) {
            Some(bucket) => {
                let mut j: usize = 0;
                while j < bucket.len()
                    invariant
                        j <= bucket.len(),
                        self.well_formed(),
                        self.buckets@.contains_key(hash),
                        self.buckets@[hash] == *bucket,
                        forall|k: int| 0 <= k < j ==> self@[bucket[k] as int] != scalar@,
                    decreases bucket.len() - j,
                {
                    let at: usize = bucket[j];
                    assert(self.buckets@[hash][j as int] < self.entries.len());
                    assert(self@[at as int] == self.entries[at as int]@);
                    if self.entries[at] == *scalar {
                        proof {
                            lemma_position_found(self@, scalar@);
                        }
                        return Some(at);
                    }
                    j += 1;
                }
            },
            None => {},
        }
        assert forall|i: int| 0 <= i < self@.len() implies self@[i] != scalar@ by {
            if self@[i] == scalar@ {
                assert(self@[i] == self.entries[i]@);
                let filed = self.buckets@[hash]@;
                let k = choose|k: int| 0 <= k < filed.len() && filed[k] == i as usize;
                assert(self@[filed[k] as int] != scalar@);
            }
        }
        None
    }

    /// Enters a scalar that the table does not hold yet, at the next free
    /// index, and files it under its hash.
    fn enter(&mut self, hash: u64, scalar: &Document) -> (index: usize)
        requires
            old(self).well_formed(),
            scalar@.is_scalar(),
            hash == content_hash(scalar@),
            position(old(self)@, scalar@) is None,
        ensures
            final(self).well_formed(),
            final(self)@ == old(self)@.push(scalar@),
            index == old(self)@.len(),
    {
        proof {
            lemma_position_found(self@, scalar@);
        }
        let index: usize = self.entries.len();
        self.entries.push(scalar.clone());
        let ghost before = self.buckets@;
        let mut bucket: Vec<usize> = match self.buckets.remove(&hash) {
            Some(filed) => filed,
            None => Vec::new(),
        };
        let ghost filed_before = bucket@;
        bucket.push(index);
        let ghost filed_after = bucket@;
        self.buckets.insert(hash, bucket);
        proof {
            assert(self@ =~= old(self)@.push(scalar@));
            assert(self.buckets@ =~= before.insert(hash, self.buckets@[hash]));
            assert forall|i: int| 0 <= i < self.entries.len() implies self.buckets@.contains_key(
                content_hash(#[trigger] self.entries[i]@),
            ) && self.buckets@[content_hash(self.entries[i]@)]@.contains(i as usize) by {
                if i < index {
                    assert(self.entries[i] == old(self).entries[i]);
                    if content_hash(self.entries[i]@) == hash {
                        let k = choose|k: int|
                            0 <= k < filed_before.len() && filed_before[k] == i as usize;
                        assert(filed_after[k] == i as usize);
                    }
                } else {
                    assert(filed_after[filed_after.len() - 1] == index);
                }
            }
            assert forall|other: u64, j: int|
                self.buckets@.contains_key(other) && 0 <= j < self.buckets@[other].len()
                    implies #[trigger] self.buckets@[other][j] < self.entries.len() by {
                if other == hash {
                    if j < filed_before.len() {
                        assert(filed_after[j] == filed_before[j]);
                        assert(before[hash][j] < old(self).entries.len());
                    }
                } else {
                    assert(before[other][j] < old(self).entries.len());
                }
            }
        }
        index
    }

    /// The index of `scalar`: the one it has where the table holds it, and
    /// the next free one, at which it is then entered, where it does not.
    /// An array or an object has none: it fails with its JSON text, and the
    /// table stays as it is.
    pub fn intern(&mut self, scalar: &Document) -> (outcome: Result<usize, Error>)
        requires
            old(self).well_formed(),
        ensures
            final(self).well_formed(),
            match outcome {
                Ok(index) => scalar@.is_scalar() && (final(self)@, index as nat) == interned(
                    old(self)@,
                    scalar@,
                ),
                Err(Error::UnknownJSONValueRef(text)) => !scalar@.is_scalar() && final(self)@
                    == old(self)@ && text@ == rendered(scalar@),
                Err(_) => false,
            },
    {
        if !scalar.is_scalar() {
            return Err(Error::UnknownJSONValueRef(write_document(scalar)));
        }
        let hash = hash_of(scalar);
        match self.lookup(hash, scalar) {
            Some(index) => Ok(index),
            None => Ok(self.enter(hash, scalar)),
        }
    }

    /// The reference list: the entries, each at its index.
    pub fn into_list(self) -> (list: Vec<Document>)
        ensures
            views(list@) == self@,
    {
        self.entries
    }
}

} // verus!

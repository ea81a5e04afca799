//! The JSON data model: the mathematical documents that contracts speak of,
//! and the executable values that stand for them.

use vstd::prelude::*;
use vstd::std_specs::cmp::PartialEqSpecImpl;
use crate::decimal::decimal_text;

verus! {

/// `serde_json::Number`, carried as it is; of what it holds only its numeral
/// is spoken of.
#[verifier::external_type_specification]
#[verifier::external_body]
pub struct ExNumber(serde_json::Number);

/// The numeral of a `serde_json::Number`: the text that its `Display` writes.
pub uninterp spec fn numeral(number: serde_json::Number) -> Seq<char>;

/// `serde_json::Number`'s `to_string`: the numeral of the number.
#[verifier::external_body]
pub(crate) fn number_text(number: &serde_json::Number) -> (text: String)
    ensures
        text@ == numeral(*number),
{
    number.to_string()
}

/// `serde_json::Number`'s `from` for a `usize`: the number whose numeral is
/// the decimal text of the index.
#[verifier::external_body]
pub(crate) fn index_number(index: usize) -> (number: serde_json::Number)
    ensures
        numeral(number) == decimal_text(index as nat),
{
    serde_json::Number::from(index)
}

/// `serde_json::Number`'s `clone`: the copy has the numeral of the number
/// that was copied.
pub assume_specification[ <serde_json::Number as Clone>::clone ](
    number: &serde_json::Number,
) -> (copy: serde_json::Number)
    ensures
        numeral(copy) == numeral(*number),
;

/// A JSON document as a mathematical value.
pub enum Json {
    Null,
    Bool(bool),
    /// A number, by its numeral.
    Number(Seq<char>),
    String(Seq<char>),
    Array(Seq<Json>),
    /// An object, by its members in order: each a key and what it holds.
    Object(Seq<(Seq<char>, Json)>),
}

impl Json {
    /// Whether this is null, a boolean, a number or a string.
    pub open spec fn is_scalar(self) -> bool {
        !(self is Array) && !(self is Object)
    }
}

/// A JSON document in memory. Two are equal where they stand for the same
/// mathematical document.
#[derive(Debug)]
pub enum Document {
    Null,
    Bool(bool),
    Number(serde_json::Number),
    String(String),
    Array(Vec<Document>),
    /// The members of an object, in order.
    Object(Vec<(String, Document)>),
}

impl View for Document {
    type V = Json;

    open spec fn view(&self) -> Json
        decreases self, 0nat,
    {
        match self {
            Document::Null => Json::Null,
            Document::Bool(b) => Json::Bool(*b),
            Document::Number(n) => Json::Number(numeral(*n)),
            Document::String(s) => Json::String(s@),
            Document::Array(items) => Json::Array(views(items@)),
            Document::Object(members) => Json::Object(member_views(members@)),
        }
    }
}

/// The documents that a run of values stands for.
pub open spec fn views(items: Seq<Document>) -> Seq<Json>
    decreases items, 1nat,
{
    Seq::new(
        items.len(),
        |i: int|
            if 0 <= i < items.len() {
                items[i]@
            } else {
                Json::Null
            },
    )
}

/// The members that a run of keys and values stands for.
pub open spec fn member_views(members: Seq<(String, Document)>) -> Seq<(Seq<char>, Json)>
    decreases members, 1nat,
{
    Seq::new(
        members.len(),
        |i: int|
            if 0 <= i < members.len() {
                (members[i].0@, members[i].1@)
            } else {
                (Seq::empty(), Json::Null)
            },
    )
}

impl Document {
    /// Whether this is null, a boolean, a number or a string.
    pub fn is_scalar(&self) -> (scalar: bool)
        ensures
            scalar == self@.is_scalar(),
    {
        match self {
            Document::Array(_) => false,
            Document::Object(_) => false,
            _ => true,
        }
    }

    /// Whether two values stand for the same document. Numbers are the same
    /// where their numerals are, and the members of objects are compared in
    /// their order.
    fn same_as(&self, other: &Document) -> (same: bool)
        ensures
            same == (self@ == other@),
        decreases self,
    {
        match (self, other) {
            (Document::Null, Document::Null) => true,
            (Document::Bool(a), Document::Bool(b)) => *a == *b,
            (Document::Number(a), Document::Number(b)) => number_text(a) == number_text(b),
            (Document::String(a), Document::String(b)) => *a == *b,
            (Document::Array(a), Document::Array(b)) => {
                if a.len() != b.len() {
                    assert(views(a@).len() != views(b@).len());
                    return false;
                }
                let mut i: usize = 0;
                while i < a.len()
                    invariant
                        i <= a.len(),
                        a.len() == b.len(),
                        decreases_to!(self => a),
                        self@ == Json::Array(views(a@)),
                        other@ == Json::Array(views(b@)),
                        forall|k: int| 0 <= k < i ==> a[k]@ == b[k]@,
                    decreases a.len() - i,
                {
                    assert(decreases_to!(*a => a[i as int]));
                    if !a[i].same_as(&b[i]) {
                        assert(views(a@)[i as int] != views(b@)[i as int]);
                        return false;
                    }
                    i += 1;
                }
                assert(views(a@) =~= views(b@));
                true
            },
            (Document::Object(a), Document::Object(b)) => {
                if a.len() != b.len() {
                    assert(member_views(a@).len() != member_views(b@).len());
                    return false;
                }
                let mut i: usize = 0;
                while i < a.len()
                    invariant
                        i <= a.len(),
                        a.len() == b.len(),
                        decreases_to!(self => a),
                        self@ == Json::Object(member_views(a@)),
                        other@ == Json::Object(member_views(b@)),
                        forall|k: int|
                            0 <= k < i ==> a[k].0@ == b[k].0@ && a[k].1@ == b[k].1@,
                    decreases a.len() - i,
                {
                    assert(decreases_to!(*a => a[i as int]));
                    if !(a[i].0 == b[i].0 && a[i].1.same_as(&b[i].1)) {
                        assert(member_views(a@)[i as int] != member_views(b@)[i as int]);
                        return false;
                    }
                    i += 1;
                }
                assert(member_views(a@) =~= member_views(b@));
                true
            },
            _ => false,
        }
    }
}

impl PartialEq for Document {
    fn eq(&self, other: &Document) -> (same: bool) {
        self.same_as(other)
    }
}

impl PartialEqSpecImpl for Document {
    open spec fn obeys_eq_spec() -> bool {
        true
    }

    open spec fn eq_spec(&self, other: &Document) -> bool {
        self@ == other@
    }
}

impl Clone for Document {
    fn clone(&self) -> (copy: Document)
        ensures
            copy@ == self@,
        decreases self,
    {
        match self {
            Document::Null => Document::Null,
            Document::Bool(b) => Document::Bool(*b),
            Document::Number(n) => Document::Number(n.clone()),
            Document::String(s) => Document::String(s.clone()),
            Document::Array(items) => {
                let mut copies: Vec<Document> = Vec::new();
                let mut i: usize = 0;
                while i < items.len()
                    invariant
                        i <= items.len(),
                        copies.len() == i,
                        decreases_to!(self => items),
                        forall|k: int| 0 <= k < i ==> copies[k]@ == items[k]@,
                    decreases items.len() - i,
                {
                    assert(decreases_to!(*items => items[i as int]));
                    copies.push(items[i].clone());
                    i += 1;
                }
                assert(views(copies@) =~= views(items@));
                Document::Array(copies)
            },
            Document::Object(members) => {
                let mut copies: Vec<(String, Document)> = Vec::new();
                let mut i: usize = 0;
                while i < members.len()
                    invariant
                        i <= members.len(),
                        copies.len() == i,
                        decreases_to!(self => members),
                        forall|k: int|
                            0 <= k < i ==> copies[k].0@ == members[k].0@ && copies[k].1@
                                == members[k].1@,
                    decreases members.len() - i,
                {
                    let key = members[i].0.clone();
                    assert(decreases_to!(*members => members[i as int]));
                    let held = members[i].1.clone();
                    copies.push((key, held));
                    i += 1;
                }
                assert(member_views(copies@) =~= member_views(members@));
                Document::Object(copies)
            },
        }
    }
}

} // verus!


//! JSON documents: what stands under a key or in a list.
use crate::json::{key_index, Json, Tree};
use vstd::prelude::*;

verus! {

/// Under a key stands what its first entry holds; under a key that is not there,
/// and in what is no object, stands nothing.
pub proof fn law_keys_lead_to_their_entries(
    entries: Seq<(Seq<char>, Tree)>,
    key: Seq<char>,
    i: int,
)
    ensures
        0 <= i < entries.len() && entries[i].0 == key && (forall|j: int|
            0 <= j < i ==> (#[trigger] entries[j]).0 != key) ==> Tree::Object(entries).at(key)
            == entries[i].1 && Tree::Object(entries).get(key) == Some(entries[i].1),
        (forall|j: int| 0 <= j < entries.len() ==> (#[trigger] entries[j]).0 != key)
            ==> Tree::Object(entries).at(key) == Tree::Null && Tree::Object(entries).get(key)
            is None,
        Tree::Null.at(key) == Tree::Null,
{
    if 0 <= i < entries.len() && entries[i].0 == key && (forall|j: int|
        0 <= j < i ==> (#[trigger] entries[j]).0 != key) {
        lemma_first_entry(entries, key, 0, i);
    }
    if forall|j: int| 0 <= j < entries.len() ==> (#[trigger] entries[j]).0 != key {
        lemma_first_entry(entries, key, 0, entries.len() as int);
    }
}

proof fn lemma_first_entry(entries: Seq<(Seq<char>, Tree)>, key: Seq<char>, from: int, i: int)
    requires
        0 <= from <= i <= entries.len(),
        forall|j: int| from <= j < i ==> (#[trigger] entries[j]).0 != key,
        i < entries.len() ==> entries[i].0 == key,
    ensures
        key_index(entries, key, from) == i,
    decreases i - from,
{
    if from < i {
        assert(entries[from].0 != key);
        lemma_first_entry(entries, key, from + 1, i);
    }
}

/// A text is read as a text and nothing else, a number as its integer and its
/// digits, an array as its elements.
pub proof fn law_values_are_read_by_their_kind(
    s: Seq<char>,
    n: Option<i64>,
    b: bool,
    items: Seq<Tree>,
)
    ensures
        Tree::Text(s).as_text() == Some(s),
        Tree::Text(s).as_integer() is None && Tree::Text(s).number_text() is None,
        Tree::Number(n, s).as_text() is None,
        Tree::Number(n, s).as_integer() == n && Tree::Number(n, s).number_text() == Some(s),
        Tree::Null.as_text() is None && Tree::Bool(b).as_text() is None && Tree::Array(
            items,
        ).as_text() is None,
        Tree::Null.as_integer() is None && Tree::Null.number_text() is None,
        Tree::Array(items).elements() == items,
        Tree::Null.elements().len() == 0 && Tree::Text(s).elements().len() == 0,
        items.len() > 0 ==> Tree::Array(items).head() == items[0],
        items.len() == 0 ==> Tree::Array(items).head() == Tree::Null,
        Tree::Null.head() == Tree::Null && Tree::Number(n, s).head() == Tree::Null,
{
}

/// A document says what its parts say.
pub proof fn law_documents_say_what_their_parts_say(j: Json, i: int)
    ensures
        j matches Json::Text(s) ==> j.tree() == Tree::Text(s@),
        j matches Json::Bool(b) ==> j.tree() == Tree::Bool(b),
        j matches Json::Number(n) ==> j.tree() == Tree::Number(n.integer, n.text@),
        j is Null ==> j.tree() == Tree::Null,
        j matches Json::Array(items) ==> j.tree() is Array && j.tree()->Array_0.len()
            == items@.len() && (0 <= i < items@.len() ==> j.tree()->Array_0[i]
            == items@[i].tree()),
        j matches Json::Object(entries) ==> j.tree() is Object && j.tree()->Object_0.len()
            == entries@.len() && (0 <= i < entries@.len() ==> j.tree()->Object_0[i] == (
            entries@[i].0@,
            entries@[i].1.tree(),
        )),
{
}

} // verus!

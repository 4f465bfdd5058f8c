//! JSON documents: a tree of plain values, read with `serde_json`.
use crate::text::{int_text, int_to_text, same_text};
use vstd::prelude::*;

verus! {

/// A number of a document: the integer that it is, where it is one that fits,
/// and its decimal text.
#[derive(Debug, Clone, PartialEq)]
pub struct JsonNumber {
    pub integer: Option<i64>,
    pub text: String,
}

/// A JSON document.
#[derive(Debug, PartialEq)]
pub enum Json {
    Null,
    Bool(bool),
    Number(JsonNumber),
    Text(String),
    Array(Vec<Json>),
    Object(Vec<(String, Json)>),
}

/// What a JSON document says.
pub enum Tree {
    Null,
    Bool(bool),
    Number(Option<i64>, Seq<char>),
    Text(Seq<char>),
    Array(Seq<Tree>),
    Object(Seq<(Seq<char>, Tree)>),
}

impl Json {
    /// What the document says.
    pub open spec fn tree(self) -> Tree
        decreases self,
    {
        match self {
            Json::Null => Tree::Null,
            Json::Bool(b) => Tree::Bool(b),
            Json::Number(n) => Tree::Number(n.integer, n.text@),
            Json::Text(s) => Tree::Text(s@),
            Json::Array(items) => Tree::Array(
                Seq::new(
                    items@.len(),
                    |i: int|
                        if 0 <= i < items.len() {
                            items[i].tree()
                        } else {
                            Tree::Null
                        },
                ),
            ),
            Json::Object(entries) => Tree::Object(
                Seq::new(
                    entries@.len(),
                    |i: int|
                        if 0 <= i < entries.len() {
                            (entries[i].0@, entries[i].1.tree())
                        } else {
                            (Seq::empty(), Tree::Null)
                        },
                ),
            ),
        }
    }
}

/// The position of the first entry with this key, or the number of entries.
pub open spec fn key_index(entries: Seq<(Seq<char>, Tree)>, key: Seq<char>, from: int) -> int
    decreases entries.len() - from,
{
    if 0 <= from < entries.len() && entries[from].0 != key {
        key_index(entries, key, from + 1)
    } else {
        from
    }
}

impl Tree {
    /// The member of an object under a key.
    pub open spec fn get(self, key: Seq<char>) -> Option<Tree> {
        match self {
            Tree::Object(entries) => {
                let i = key_index(entries, key, 0);
                if 0 <= i < entries.len() {
                    Some(entries[i].1)
                } else {
                    None
                }
            },
            _ => None,
        }
    }

    /// The member of an object under a key; null where there is none.
    pub open spec fn at(self, key: Seq<char>) -> Tree {
        match self.get(key) {
            Some(t) => t,
            None => Tree::Null,
        }
    }

    /// The first element of an array; null where there is none.
    pub open spec fn head(self) -> Tree {
        match self {
            Tree::Array(items) => if items.len() > 0 {
                items[0]
            } else {
                Tree::Null
            },
            _ => Tree::Null,
        }
    }

    pub open spec fn as_text(self) -> Option<Seq<char>> {
        match self {
            Tree::Text(s) => Some(s),
            _ => None,
        }
    }

    pub open spec fn as_integer(self) -> Option<i64> {
        match self {
            Tree::Number(i, s) => i,
            _ => None,
        }
    }

    /// The decimal text of a number.
    pub open spec fn number_text(self) -> Option<Seq<char>> {
        match self {
            Tree::Number(i, s) => Some(s),
            _ => None,
        }
    }

    /// The elements of an array.
    pub open spec fn elements(self) -> Seq<Tree> {
        match self {
            Tree::Array(items) => items,
            _ => Seq::empty(),
        }
    }
}

// ---------------------------------------------------------------------------
// Access

/// What a place in a document says; nothing there is null.
pub open spec fn tree_at(place: Option<&Json>) -> Tree {
    match place {
        Some(j) => j.tree(),
        None => Tree::Null,
    }
}

proof fn lemma_key_index(entries: Seq<(Seq<char>, Tree)>, key: Seq<char>, from: int, i: int)
    requires
        0 <= from <= i <= entries.len(),
        forall|k: int| from <= k < i ==> (#[trigger] entries[k]).0 != key,
        i < entries.len() ==> entries[i].0 == key,
    ensures
        key_index(entries, key, from) == i,
    decreases i - from,
{
    if from < i {
        lemma_key_index(entries, key, from + 1, i);
    }
}

impl Json {
    /// The member of an object under a key.
    pub fn get(&self, key: &str) -> (r: Option<&Json>)
        ensures
            match r {
                Some(j) => self.tree().get(key@) == Some(j.tree()),
                None => self.tree().get(key@) is None,
            },
    {
        match self {
            Json::Object(entries) => {
                let ghost all = self.tree()->Object_0;
                let mut i: usize = 0;
                while i < entries.len()
                    invariant
                        i <= entries@.len(),
                        self == Json::Object(*entries),
                        all == self.tree()->Object_0,
                        all.len() == entries@.len(),
                        forall|k: int|
                            0 <= k < entries@.len() ==> #[trigger] all[k] == (
                                entries@[k].0@,
                                entries@[k].1.tree(),
                            ),
                        forall|k: int| 0 <= k < i ==> (#[trigger] all[k]).0 != key@,
                    decreases entries@.len() - i,
                {
                    proof {
                        assert(all[i as int] == (
                            entries@[i as int].0@,
                            entries@[i as int].1.tree(),
                        ));
                    }
                    if same_text(entries[i].0.as_str(), key) {
                        proof {
                            lemma_key_index(all, key@, 0, i as int);
                        }
                        return Some(&entries[i].1);
                    }
                    i = i + 1;
                }
                proof {
                    lemma_key_index(all, key@, 0, all.len() as int);
                }
                None
            },
            _ => None,
        }
    }
}

/// The member under a key of what stands at a place.
pub fn member<'a>(place: Option<&'a Json>, key: &str) -> (r: Option<&'a Json>)
    ensures
        tree_at(r) == tree_at(place).at(key@),
{
    match place {
        Some(j) => j.get(key),
        None => None,
    }
}

/// The first element of the array at a place.
pub fn first_element<'a>(place: Option<&'a Json>) -> (r: Option<&'a Json>)
    ensures
        tree_at(r) == tree_at(place).head(),
{
    match place {
        Some(Json::Array(items)) => if items.len() > 0 {
            Some(&items[0])
        } else {
            None
        },
        _ => None,
    }
}

/// The text at a place.
pub fn text_in<'a>(place: Option<&'a Json>) -> (r: Option<&'a String>)
    ensures
        match r {
            Some(s) => tree_at(place).as_text() == Some(s@),
            None => tree_at(place).as_text() is None,
        },
{
    match place {
        Some(Json::Text(s)) => Some(s),
        _ => None,
    }
}

/// The text at a place, as a string of its own.
pub fn owned_text(place: Option<&Json>) -> (r: Option<String>)
    ensures
        opt_text(r) == tree_at(place).as_text(),
{
    match text_in(place) {
        Some(s) => Some(s.clone()),
        None => None,
    }
}

/// The integer at a place.
pub fn integer_in(place: Option<&Json>) -> (r: Option<i64>)
    ensures
        r == tree_at(place).as_integer(),
{
    match place {
        Some(Json::Number(n)) => n.integer,
        _ => None,
    }
}

/// The decimal text of the number at a place.
pub fn decimal_in(place: Option<&Json>) -> (r: Option<String>)
    ensures
        opt_text(r) == tree_at(place).number_text(),
{
    match place {
        Some(Json::Number(n)) => Some(n.text.clone()),
        _ => None,
    }
}

/// The text of an optional string.
pub open spec fn opt_text(s: Option<String>) -> Option<Seq<char>> {
    match s {
        Some(t) => Some(t@),
        None => None,
    }
}

// ---------------------------------------------------------------------------
// Building

/// What the entries of an object say.
pub open spec fn entry_trees(entries: Seq<(String, Json)>) -> Seq<(Seq<char>, Tree)> {
    entries.map_values(|e: (String, Json)| (e.0@, e.1.tree()))
}

/// What the elements of an array say.
pub open spec fn item_trees(items: Seq<Json>) -> Seq<Tree> {
    items.map_values(|j: Json| j.tree())
}

/// An object with these entries.
pub fn object(entries: Vec<(String, Json)>) -> (r: Json)
    ensures
        r == Json::Object(entries),
        r.tree() == Tree::Object(entry_trees(entries@)),
{
    let r = Json::Object(entries);
    proof {
        assert(r.tree()->Object_0 =~= entry_trees(entries@));
    }
    r
}

/// An array with these elements.
pub fn array(items: Vec<Json>) -> (r: Json)
    ensures
        r.tree() == Tree::Array(item_trees(items@)),
{
    let r = Json::Array(items);
    proof {
        assert(r.tree()->Array_0 =~= item_trees(items@));
    }
    r
}

/// A text.
pub fn text(s: &str) -> (r: Json)
    ensures
        r.tree() == Tree::Text(s@),
{
    Json::Text(s.to_owned())
}

/// What an integer says.
pub open spec fn integer_tree(i: i64) -> Tree {
    Tree::Number(Some(i), int_text(i as int))
}

/// An integer.
pub fn integer(i: i64) -> (r: Json)
    ensures
        r.tree() == integer_tree(i),
{
    Json::Number(JsonNumber { integer: Some(i), text: int_to_text(i) })
}

// ---------------------------------------------------------------------------
// Reading and writing

/// `serde_json::Value`, unopened.
#[verifier::external_type_specification]
#[verifier::external_body]
pub struct ExJsonValue(serde_json::Value);

pub uninterp spec fn value_tree(value: serde_json::Value) -> Tree;

pub uninterp spec fn json_document(text: Seq<char>) -> Result<Tree, Seq<char>>;

/// `serde_json::from_str` into a `serde_json::Value`: the document, or the text
/// of the error. The name `json_document` stands for what it says, and
/// `value_tree` for what a value holds.
#[verifier::external_body]
fn json_value(text: &str) -> (r: Result<serde_json::Value, String>)
    ensures
        match r {
            Ok(v) => json_document(text@) == Ok::<Tree, Seq<char>>(value_tree(v)),
            Err(why) => json_document(text@) == Err::<Tree, Seq<char>>(why@),
        },
{
    serde_json::from_str(text).map_err(|e: serde_json::Error| e.to_string())
}

/// One level of a document, with what is below it unopened.
enum Level {
    Null,
    Bool(bool),
    Number(JsonNumber),
    Text(String),
    Array(Vec<serde_json::Value>),
    Object(Vec<(String, serde_json::Value)>),
}

/// What one level says.
spec fn level_tree(level: Level) -> Tree {
    match level {
        Level::Null => Tree::Null,
        Level::Bool(b) => Tree::Bool(b),
        Level::Number(n) => Tree::Number(n.integer, n.text@),
        Level::Text(s) => Tree::Text(s@),
        Level::Array(items) => Tree::Array(
            items@.map_values(|v: serde_json::Value| value_tree(v)),
        ),
        Level::Object(entries) => Tree::Object(
            entries@.map_values(|e: (String, serde_json::Value)| (e.0@, value_tree(e.1))),
        ),
    }
}

/// The variants of `serde_json::Value`, one by one: a number by
/// `Number::as_i64` and its decimal text, an array by its elements, an object by
/// its entries.
#[verifier::external_body]
fn open_value(value: serde_json::Value) -> (r: Level)
    ensures
        value_tree(value) == level_tree(r),
{
    match value {
        serde_json::Value::Null => Level::Null,
        serde_json::Value::Bool(b) => Level::Bool(b),
        serde_json::Value::Number(n) => {
            Level::Number(JsonNumber { integer: n.as_i64(), text: n.to_string() })
        },
        serde_json::Value::String(s) => Level::Text(s),
        serde_json::Value::Array(items) => Level::Array(items),
        serde_json::Value::Object(map) => Level::Object(map.into_iter().collect()),
    }
}

/// The document that a text holds, as an entry of an object; null where it holds
/// none.
pub fn document(text: &str) -> (r: Scalar)
    ensures
        scalar_tree(r) == match json_document(text@) {
            Ok(tree) => tree,
            Err(_) => Tree::Null,
        },
{
    match json_value(text) {
        Ok(v) => Scalar::Document(v),
        Err(_) => Scalar::Null,
    }
}

/// The document that a `serde_json::Value` holds.
fn json_of(value: serde_json::Value) -> (r: Json)
    ensures
        r.tree() == value_tree(value),
    decreases value_tree(value),
{
    let ghost whole = value_tree(value);
    match open_value(value) {
        Level::Null => Json::Null,
        Level::Bool(b) => Json::Bool(b),
        Level::Number(n) => Json::Number(n),
        Level::Text(s) => Json::Text(s),
        Level::Array(items) => {
            let ghost all = items@;
            let ghost below = whole->Array_0;
            let mut out: Vec<Json> = Vec::new();
            for item in it: items
                invariant
                    it.seq() == all,
                    whole == Tree::Array(below),
                    below == all.map_values(|v: serde_json::Value| value_tree(v)),
                    out@.len() == it.index(),
                    whole == value_tree(value),
                    forall|k: int| 0 <= k < out@.len() ==> (#[trigger] out@[k]).tree() == below[k],
            {
                proof {
                    assert(below[it.index()] == value_tree(item));
                    assert(decreases_to!(whole => whole->Array_0));
                    assert(decreases_to!(below => below[it.index()]));
                }
                out.push(json_of(item));
            }
            let r = Json::Array(out);
            proof {
                assert(r.tree()->Array_0 =~= below);
            }
            r
        },
        Level::Object(entries) => {
            let ghost all = entries@;
            let ghost below = whole->Object_0;
            let mut out: Vec<(String, Json)> = Vec::new();
            for entry in it: entries
                invariant
                    it.seq() == all,
                    whole == Tree::Object(below),
                    below == all.map_values(
                        |e: (String, serde_json::Value)| (e.0@, value_tree(e.1)),
                    ),
                    out@.len() == it.index(),
                    whole == value_tree(value),
                    forall|k: int|
                        0 <= k < out@.len() ==> ((#[trigger] out@[k]).0@, out@[k].1.tree())
                            == below[k],
            {
                let (key, item) = entry;
                proof {
                    assert(below[it.index()] == (key@, value_tree(item)));
                    assert(decreases_to!(whole => whole->Object_0));
                    assert(decreases_to!(below => below[it.index()]));
                    assert(decreases_to!(below[it.index()] => below[it.index()].1));
                }
                out.push((key, json_of(item)));
            }
            let r = Json::Object(out);
            proof {
                assert(r.tree()->Object_0 =~= below);
            }
            r
        },
    }
}

/// Reads a JSON document, or says why the text is none.
pub fn parse_json(text: &str) -> (r: Result<Json, String>)
    ensures
        match r {
            Ok(j) => json_document(text@) == Ok::<Tree, Seq<char>>(j.tree()),
            Err(why) => json_document(text@) == Err::<Tree, Seq<char>>(why@),
        },
{
    match json_value(text) {
        Ok(v) => Ok(json_of(v)),
        Err(why) => Err(why),
    }
}

/// What an entry of a flat object holds.
pub enum Scalar {
    Null,
    Integer(i64),
    Text(String),
    /// A document as it was read.
    Document(serde_json::Value),
}

/// What an entry of a flat object says.
pub open spec fn scalar_tree(s: Scalar) -> Tree {
    match s {
        Scalar::Null => Tree::Null,
        Scalar::Integer(i) => integer_tree(i),
        Scalar::Text(t) => Tree::Text(t@),
        Scalar::Document(v) => value_tree(v),
    }
}

/// What the entries of a flat object say.
pub open spec fn scalar_entries(entries: Seq<(String, Scalar)>) -> Seq<(Seq<char>, Tree)> {
    entries.map_values(|e: (String, Scalar)| (e.0@, scalar_tree(e.1)))
}

pub uninterp spec fn object_text(entries: Seq<(Seq<char>, Tree)>) -> Seq<char>;

/// The `Display` form of a `serde_json::Value` that is a flat object with these
/// entries: its JSON text, which the name `object_text` stands for.
#[verifier::external_body]
pub(crate) fn write_object(entries: Vec<(String, Scalar)>) -> (r: String)
    ensures
        r@ == object_text(scalar_entries(entries@)),
{
    let map: serde_json::Map<String, serde_json::Value> = entries.into_iter().map(
        |(key, value)| match value {
            Scalar::Null => (key, serde_json::Value::Null),
            Scalar::Integer(i) => (key, serde_json::Value::from(i)),
            Scalar::Text(t) => (key, serde_json::Value::String(t)),
            Scalar::Document(v) => (key, v),
        },
    ).collect();
    serde_json::Value::Object(map).to_string()
}

} // verus!

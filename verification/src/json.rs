//! JSON documents: the mathematical tree, the value that holds one, and how a value is read,
//! copied and built.

use crate::codec::is_decimal;
use crate::text::same_text;
use vstd::prelude::*;

verus! {

/// A number of `serde_json`, carried through without looking inside.
#[verifier::external_type_specification]
#[verifier::external_body]
pub struct ExNumber(serde_json::Number);

/// `Number::clone` returns the number it is given.
pub assume_specification[ <serde_json::Number as Clone>::clone ](
    number: &serde_json::Number,
) -> (copy: serde_json::Number)
    ensures
        copy == *number,
;

/// What a JSON document says. An object is the map from its keys to its members.
pub enum Tree {
    Null,
    Bool(bool),
    Int(int),
    Decimal(serde_json::Number),
    Text(Seq<char>),
    List(Seq<Tree>),
    Object(Map<Seq<char>, Tree>),
}

impl Tree {
    /// The object without members.
    pub open spec fn object() -> Tree {
        Tree::Object(Map::empty())
    }

    /// The object with the member `key` set to `value`.
    pub open spec fn with(self, key: Seq<char>, value: Tree) -> Tree {
        match self {
            Tree::Object(members) => Tree::Object(members.insert(key, value)),
            _ => self,
        }
    }

    /// The member `key` of an object; nothing else has members.
    pub open spec fn get(self, key: Seq<char>) -> Option<Tree> {
        match self {
            Tree::Object(members) => if members.contains_key(key) {
                Some(members[key])
            } else {
                None
            },
            _ => None,
        }
    }

    pub open spec fn as_text(self) -> Option<Seq<char>> {
        match self {
            Tree::Text(text) => Some(text),
            _ => None,
        }
    }

    pub open spec fn as_bool(self) -> Option<bool> {
        match self {
            Tree::Bool(value) => Some(value),
            _ => None,
        }
    }

    pub open spec fn as_list(self) -> Option<Seq<Tree>> {
        match self {
            Tree::List(items) => Some(items),
            _ => None,
        }
    }

    /// The integer, where it is one that `i64` holds.
    pub open spec fn as_i64(self) -> Option<i64> {
        match self {
            Tree::Int(n) => if i64::MIN <= n <= i64::MAX {
                Some(n as i64)
            } else {
                None
            },
            _ => None,
        }
    }

    /// The integer, where it is one that `u64` holds.
    pub open spec fn as_u64(self) -> Option<u64> {
        match self {
            Tree::Int(n) => if 0 <= n <= u64::MAX {
                Some(n as u64)
            } else {
                None
            },
            _ => None,
        }
    }

    pub open spec fn text_at(self, key: Seq<char>) -> Option<Seq<char>> {
        match self.get(key) {
            Some(member) => member.as_text(),
            None => None,
        }
    }

    pub open spec fn bool_at(self, key: Seq<char>) -> Option<bool> {
        match self.get(key) {
            Some(member) => member.as_bool(),
            None => None,
        }
    }

    pub open spec fn i64_at(self, key: Seq<char>) -> Option<i64> {
        match self.get(key) {
            Some(member) => member.as_i64(),
            None => None,
        }
    }

    pub open spec fn u64_at(self, key: Seq<char>) -> Option<u64> {
        match self.get(key) {
            Some(member) => member.as_u64(),
            None => None,
        }
    }

    pub open spec fn list_at(self, key: Seq<char>) -> Option<Seq<Tree>> {
        match self.get(key) {
            Some(member) => member.as_list(),
            None => None,
        }
    }
}

/// A number that is no integer of 64 bits.
pub struct Decimal {
    number: serde_json::Number,
}

impl View for Decimal {
    type V = serde_json::Number;

    closed spec fn view(&self) -> serde_json::Number {
        self.number
    }
}

impl Decimal {
    #[verifier::type_invariant]
    spec fn well_formed(self) -> bool {
        is_decimal(self.number)
    }

    pub(crate) fn new(number: serde_json::Number) -> (decimal: Decimal)
        requires
            is_decimal(number),
        ensures
            decimal@ == number,
    {
        Decimal { number }
    }

    pub(crate) fn number(&self) -> (number: serde_json::Number)
        ensures
            number == self@,
            is_decimal(number),
    {
        proof {
            use_type_invariant(self);
        }
        self.number.clone()
    }

    fn duplicate(&self) -> (copy: Decimal)
        ensures
            copy@ == self@,
    {
        Decimal::new(self.number())
    }
}

/// A JSON document. Where an object lists a key twice, the later member counts.
pub enum Json {
    Null,
    Bool(bool),
    UInt(u64),
    Int(i64),
    Decimal(Decimal),
    Text(String),
    List(Vec<Json>),
    Object(Vec<(String, Json)>),
}

impl View for Json {
    type V = Tree;

    open spec fn view(&self) -> Tree {
        tree(*self)
    }
}

/// The tree that a document holds.
pub open spec fn tree(json: Json) -> Tree
    decreases json,
{
    match json {
        Json::Null => Tree::Null,
        Json::Bool(value) => Tree::Bool(value),
        Json::UInt(n) => Tree::Int(n as int),
        Json::Int(n) => Tree::Int(n as int),
        Json::Decimal(decimal) => Tree::Decimal(decimal@),
        Json::Text(text) => Tree::Text(text@),
        Json::List(items) => Tree::List(trees(items@)),
        Json::Object(entries) => Tree::Object(members(entries@)),
    }
}

/// The trees that the documents of a list hold.
pub open spec fn trees(items: Seq<Json>) -> Seq<Tree>
    decreases items,
{
    if items.len() == 0 {
        Seq::empty()
    } else {
        trees(items.drop_last()).push(tree(items.last()))
    }
}

/// The members that a list of entries makes.
pub open spec fn members(entries: Seq<(String, Json)>) -> Map<Seq<char>, Tree>
    decreases entries,
{
    if entries.len() == 0 {
        Map::empty()
    } else {
        members(entries.drop_last()).insert(entries.last().0@, tree(entries.last().1))
    }
}

/// A list of documents holds as many trees as it has documents.
pub broadcast proof fn lemma_trees_len(items: Seq<Json>)
    ensures
        #[trigger] trees(items).len() == items.len(),
    decreases items.len(),
{
    if items.len() != 0 {
        lemma_trees_len(items.drop_last());
    }
}

/// The trees of a list stand in the order of its documents.
pub broadcast proof fn lemma_trees_index(items: Seq<Json>, i: int)
    requires
        0 <= i < items.len(),
    ensures
        #[trigger] trees(items)[i] == tree(items[i]),
    decreases items.len(),
{
    lemma_trees_len(items.drop_last());
    if i < items.len() - 1 {
        lemma_trees_index(items.drop_last(), i);
    }
}

/// A further document adds its tree at the end.
pub proof fn lemma_trees_push(items: Seq<Json>, item: Json)
    ensures
        trees(items.push(item)) == trees(items).push(tree(item)),
{
    assert(items.push(item).drop_last() =~= items);
}

/// The trees of two lists in a row stand in a row.
pub proof fn lemma_trees_append(first: Seq<Json>, second: Seq<Json>)
    ensures
        trees(first + second) == trees(first) + trees(second),
{
    broadcast use lemma_trees_len, lemma_trees_index;

    assert(trees(first + second) =~= trees(first) + trees(second));
}

/// The tree of a document that may be missing.
pub open spec fn tree_view(json: Option<&Json>) -> Option<Tree> {
    match json {
        Some(json) => Some(json@),
        None => None,
    }
}

/// The characters of a text that may be missing.
pub open spec fn text_view(text: Option<&str>) -> Option<Seq<char>> {
    match text {
        Some(text) => Some(text@),
        None => None,
    }
}

/// The trees of a list that may be missing.
pub open spec fn list_view(items: Option<&Vec<Json>>) -> Option<Seq<Tree>> {
    match items {
        Some(items) => Some(trees(items@)),
        None => None,
    }
}

impl Json {
    /// The member `key` of an object.
    pub fn get(&self, key: &str) -> (member: Option<&Json>)
        ensures
            tree_view(member) == self@.get(key@),
    {
        match self {
            Json::Object(entries) => {
                let mut i: usize = entries.len();
                assert(entries@.take(i as int) =~= entries@);
                while i > 0
                    invariant
                        i <= entries@.len(),
                        self@ == Tree::Object(members(entries@)),
                        self@.get(key@) == Tree::Object(members(entries@.take(i as int))).get(key@),
                    decreases i,
                {
                    i -= 1;
                    assert(entries@.take(i + 1).drop_last() =~= entries@.take(i as int));
                    if same_text(entries[i].0.as_str(), key) {
                        return Some(&entries[i].1);
                    }
                }
                None
            },
            _ => None,
        }
    }

    /// The characters of a text.
    pub fn as_str(&self) -> (text: Option<&str>)
        ensures
            text_view(text) == self@.as_text(),
    {
        match self {
            Json::Text(text) => Some(text.as_str()),
            _ => None,
        }
    }

    /// The value of a boolean.
    pub fn as_bool(&self) -> (value: Option<bool>)
        ensures
            value == self@.as_bool(),
    {
        match self {
            Json::Bool(value) => Some(*value),
            _ => None,
        }
    }

    /// The items of a list.
    pub fn as_array(&self) -> (items: Option<&Vec<Json>>)
        ensures
            list_view(items) == self@.as_list(),
    {
        match self {
            Json::List(items) => Some(items),
            _ => None,
        }
    }

    /// The integer, where `i64` holds it.
    pub fn as_i64(&self) -> (value: Option<i64>)
        ensures
            value == self@.as_i64(),
    {
        match self {
            Json::UInt(n) => if *n <= 0x7fff_ffff_ffff_ffff {
                Some(*n as i64)
            } else {
                None
            },
            Json::Int(n) => Some(*n),
            _ => None,
        }
    }

    /// The integer, where `u64` holds it.
    pub fn as_u64(&self) -> (value: Option<u64>)
        ensures
            value == self@.as_u64(),
    {
        match self {
            Json::UInt(n) => Some(*n),
            Json::Int(n) => if *n >= 0 {
                Some(*n as u64)
            } else {
                None
            },
            _ => None,
        }
    }

    /// The member `key`, where it is a text.
    pub fn text_at(&self, key: &str) -> (text: Option<&str>)
        ensures
            text_view(text) == self@.text_at(key@),
    {
        match self.get(key) {
            Some(member) => member.as_str(),
            None => None,
        }
    }

    /// The member `key`, where it is a boolean.
    pub fn bool_at(&self, key: &str) -> (value: Option<bool>)
        ensures
            value == self@.bool_at(key@),
    {
        match self.get(key) {
            Some(member) => member.as_bool(),
            None => None,
        }
    }

    /// The member `key`, where it is an integer that `i64` holds.
    pub fn i64_at(&self, key: &str) -> (value: Option<i64>)
        ensures
            value == self@.i64_at(key@),
    {
        match self.get(key) {
            Some(member) => member.as_i64(),
            None => None,
        }
    }

    /// The member `key`, where it is an integer that `u64` holds.
    pub fn u64_at(&self, key: &str) -> (value: Option<u64>)
        ensures
            value == self@.u64_at(key@),
    {
        match self.get(key) {
            Some(member) => member.as_u64(),
            None => None,
        }
    }

    /// The items of the member `key`, where it is a list.
    pub fn list_at(&self, key: &str) -> (items: Option<&Vec<Json>>)
        ensures
            list_view(items) == self@.list_at(key@),
    {
        match self.get(key) {
            Some(member) => member.as_array(),
            None => None,
        }
    }

    /// The text with the given characters.
    pub fn text(text: &str) -> (json: Json)
        ensures
            json@ == Tree::Text(text@),
    {
        Json::Text(text.to_owned())
    }

    /// The list with the given items.
    pub fn list(items: Vec<Json>) -> (json: Json)
        ensures
            json@ == Tree::List(trees(items@)),
    {
        Json::List(items)
    }

    /// The object without members.
    pub fn object() -> (json: Json)
        ensures
            json@ == Tree::object(),
    {
        Json::Object(Vec::new())
    }

    /// The object with the member `key` set to `value`; what is no object stays as it is.
    pub fn with(self, key: &str, value: Json) -> (json: Json)
        ensures
            json@ == self@.with(key@, value@),
    {
        match self {
            Json::Object(entries) => {
                let mut entries = entries;
                let ghost before = entries@;
                entries.push((key.to_owned(), value));
                assert(entries@.drop_last() =~= before);
                Json::Object(entries)
            },
            other => other,
        }
    }

    /// A document with the same tree.
    pub fn duplicate(&self) -> (copy: Json)
        ensures
            copy@ == self@,
        decreases self,
    {
        match self {
            Json::Null => Json::Null,
            Json::Bool(value) => Json::Bool(*value),
            Json::UInt(n) => Json::UInt(*n),
            Json::Int(n) => Json::Int(*n),
            Json::Decimal(decimal) => Json::Decimal(decimal.duplicate()),
            Json::Text(text) => Json::Text(text.clone()),
            Json::List(items) => {
                let mut copies: Vec<Json> = Vec::new();
                for i in 0..items.len()
                    invariant
                        *self == Json::List(*items),
                        trees(copies@) == trees(items@.take(i as int)),
                {
                    assert(decreases_to!(*self => self->List_0));
                    assert(decreases_to!(*items => items@));
                    assert(decreases_to!(items@ => items@[i as int]));
                    let copy = items[i].duplicate();
                    proof {
                        lemma_trees_push(copies@, copy);
                        assert(items@.take(i + 1).drop_last() =~= items@.take(i as int));
                    }
                    copies.push(copy);
                }
                assert(items@.take(items@.len() as int) =~= items@);
                Json::List(copies)
            },
            Json::Object(entries) => {
                let mut copies: Vec<(String, Json)> = Vec::new();
                for i in 0..entries.len()
                    invariant
                        *self == Json::Object(*entries),
                        members(copies@) == members(entries@.take(i as int)),
                {
                    assert(decreases_to!(*self => self->Object_0));
                    assert(decreases_to!(*entries => entries@));
                    assert(decreases_to!(entries@ => entries@[i as int]));
                    assert(decreases_to!(entries@[i as int] => entries@[i as int].1));
                    let copy = entries[i].1.duplicate();
                    let ghost before = copies@;
                    copies.push((entries[i].0.clone(), copy));
                    proof {
                        assert(copies@.drop_last() =~= before);
                        assert(entries@.take(i + 1).drop_last() =~= entries@.take(i as int));
                    }
                }
                assert(entries@.take(entries@.len() as int) =~= entries@);
                Json::Object(copies)
            },
        }
    }
}

}

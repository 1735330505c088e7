//! Reading JSON from bytes and text, and writing it.
//!
//! `serde_json` does the reading and the writing. A value of it is opened one layer at a time, and
//! the recursion between its values and the documents of this library is verified.

use crate::json::{lemma_trees_push, members, tree, trees, Decimal, Json, Tree};
use crate::text::same_text;
use vstd::prelude::*;

verus! {

/// A value of `serde_json`: a JSON document as that crate holds it.
#[verifier::external_type_specification]
#[verifier::external_body]
pub struct ExValue(serde_json::Value);

/// Why `serde_json` could not read or write a document.
#[verifier::external_type_specification]
#[verifier::external_body]
pub struct ExError(serde_json::Error);

/// The tree that a value of `serde_json` holds.
pub uninterp spec fn value_tree(value: serde_json::Value) -> Tree;

/// A number that stands in a tree as one that is no integer of 64 bits.
pub open spec fn is_decimal(number: serde_json::Number) -> bool {
    exists|value: serde_json::Value| #[trigger] value_tree(value) == Tree::Decimal(number)
}

/// What `serde_json::from_slice` reads from bytes, or what the error says that it reports.
pub uninterp spec fn parsed_slice(bytes: Seq<u8>) -> Result<Tree, Seq<char>>;

/// What `serde_json::from_str` reads from a text: `None` where it reports an error.
pub uninterp spec fn parsed_str(text: Seq<char>) -> Option<Tree>;

/// What `serde_json::to_vec` writes for a tree.
pub uninterp spec fn json_bytes(tree: Tree) -> Seq<u8>;

/// What `serde_json::to_string` writes for a tree.
pub uninterp spec fn json_text(tree: Tree) -> Seq<char>;

/// Whether a written tree is read back as it was: its numbers are integers, and its lists and
/// objects are nested at most `depth` deep. Other numbers may be read back rounded, so nothing is
/// said of them.
pub open spec fn reads_back(tree: Tree, depth: nat) -> bool
    decreases depth,
{
    match tree {
        Tree::Decimal(_) => false,
        Tree::List(items) => depth > 0 && forall|i: int|
            0 <= i < items.len() ==> reads_back(#[trigger] items[i], (depth - 1) as nat),
        Tree::Object(members) => depth > 0 && forall|key: Seq<char>| #[trigger]
            members.contains_key(key) ==> reads_back(members[key], (depth - 1) as nat),
        _ => true,
    }
}

/// How deep the lists and objects of a document may be nested for `serde_json` to read it.
pub const NESTING_LIMIT: u8 = 127;

/// The tree that was read, or why none was.
pub open spec fn value_view(value: Result<serde_json::Value, String>) -> Result<Tree, Seq<char>> {
    match value {
        Ok(value) => Ok(value_tree(value)),
        Err(cause) => Err(cause@),
    }
}

/// The tree that was read, where one was.
pub open spec fn read_view(value: Result<serde_json::Value, serde_json::Error>) -> Option<Tree> {
    match value {
        Ok(value) => Some(value_tree(value)),
        Err(_) => None,
    }
}

/// The tree of the document that was read, or why none was.
pub open spec fn json_view(json: Result<Json, String>) -> Result<Tree, Seq<char>> {
    match json {
        Ok(json) => Ok(json@),
        Err(cause) => Err(cause@),
    }
}

/// The tree of the document that was read, where one was.
pub open spec fn document_view(json: Result<Json, serde_json::Error>) -> Option<Tree> {
    match json {
        Ok(json) => Some(json@),
        Err(_) => None,
    }
}

/// The text is a single line that the tree can be read from: it holds no line end, starts with a
/// brace where the tree is an object, and is read back as the tree where that reads back.
pub open spec fn is_line_of(text: Seq<char>, tree: Tree) -> bool {
    &&& !text.contains('\n') && !text.contains('\r')
    &&& tree is Object ==> text.len() > 0 && text[0] == '{'
    &&& reads_back(tree, NESTING_LIMIT as nat) ==> parsed_str(text) == Some(tree)
}

/// The bytes are read back as the tree, where that reads back.
pub open spec fn are_bytes_of(bytes: Seq<u8>, tree: Tree) -> bool {
    reads_back(tree, NESTING_LIMIT as nat) ==> parsed_slice(bytes) == Ok::<Tree, Seq<char>>(tree)
}

/// Calls `serde_json::from_slice`. The result, and what an error says, depend on the bytes alone;
/// they are given a name.
#[verifier::external_body]
fn value_from_slice(bytes: &[u8]) -> (value: Result<serde_json::Value, String>)
    ensures
        value_view(value) == parsed_slice(bytes@),
{
    match serde_json::from_slice(bytes) {
        Ok(value) => Ok(value),
        Err(error) => Err(error.to_string()),
    }
}

/// Calls `serde_json::from_str`. The result depends on the text alone; it is given a name. White
/// space behind a document is passed over, and a carriage return there ends nothing that was left
/// open: the text is read as it is with a further carriage return behind it.
#[verifier::external_body]
fn value_from_str(text: &str) -> (value: Result<serde_json::Value, serde_json::Error>)
    ensures
        read_view(value) == parsed_str(text@),
        read_view(value) == parsed_str(text@.push('\r')),
{
    serde_json::from_str(text)
}

/// Calls `serde_json::to_vec`. The result depends on the tree alone; it is given a name. A value of
/// `serde_json` has texts as keys and never refuses to be written, so there is no error. What is
/// written for a tree of integers within the nesting limit is read back as that tree.
#[verifier::external_body]
fn value_to_vec(value: &serde_json::Value) -> (bytes: Result<Vec<u8>, String>)
    ensures
        bytes is Ok,
        bytes matches Ok(written) ==> written@ == json_bytes(value_tree(*value)),
        bytes matches Ok(written) ==> are_bytes_of(written@, value_tree(*value)),
{
    match serde_json::to_vec(value) {
        Ok(written) => Ok(written),
        Err(error) => Err(error.to_string()),
    }
}

/// Calls `serde_json::to_string`. The result depends on the tree alone; it is given a name. A value
/// of `serde_json` has texts as keys and never refuses to be written, so there is no error. The
/// text holds no line end, for control characters are escaped and the compact form has no white
/// space; that of an object starts with a brace; and what is written for a tree of integers within
/// the nesting limit is read back as that tree.
#[verifier::external_body]
fn value_to_string(value: &serde_json::Value) -> (text: Result<String, String>)
    ensures
        text is Ok,
        text matches Ok(written) ==> written@ == json_text(value_tree(*value)),
        text matches Ok(written) ==> is_line_of(written@, value_tree(*value)),
{
    match serde_json::to_string(value) {
        Ok(written) => Ok(written),
        Err(error) => Err(error.to_string()),
    }
}

/// Calls `to_string` of a value, by its `Display`: without further flags it writes what
/// `serde_json::to_string` does, by the same compact writer.
#[verifier::external_body]
fn value_display(value: &serde_json::Value) -> (text: String)
    ensures
        text@ == json_text(value_tree(*value)),
        is_line_of(text@, value_tree(*value)),
{
    value.to_string()
}

/// The outermost layer of a value: what it is, with the values inside it left as they are.
pub(crate) enum Layer {
    Null,
    Bool(bool),
    UInt(u64),
    Int(i64),
    Decimal(serde_json::Number),
    Text(String),
    List(Vec<serde_json::Value>),
    Object(Vec<(String, serde_json::Value)>),
}

/// No key occurs twice.
pub(crate) open spec fn distinct_keys(entries: Seq<(String, serde_json::Value)>) -> bool {
    forall|i: int, j: int|
        #![trigger entries[i], entries[j]]
        0 <= i < j < entries.len() ==> entries[i].0@ != entries[j].0@
}

/// The entries are the members, each once.
pub(crate) open spec fn lists_members(
    entries: Seq<(String, serde_json::Value)>,
    members: Map<Seq<char>, Tree>,
) -> bool {
    &&& distinct_keys(entries)
    &&& forall|i: int|
        #![trigger entries[i]]
        0 <= i < entries.len() ==> members.contains_key(entries[i].0@)
            && members[entries[i].0@] == value_tree(entries[i].1)
    &&& forall|key: Seq<char>| #[trigger]
        members.contains_key(key) ==> exists|i: int|
            #![trigger entries[i]]
            0 <= i < entries.len() && entries[i].0@ == key
}

/// The layer is the outermost one of the tree.
pub(crate) open spec fn layer_of(layer: Layer, tree: Tree) -> bool {
    match layer {
        Layer::Null => tree == Tree::Null,
        Layer::Bool(value) => tree == Tree::Bool(value),
        Layer::UInt(n) => tree == Tree::Int(n as int),
        Layer::Int(n) => tree == Tree::Int(n as int),
        Layer::Decimal(number) => tree == Tree::Decimal(number),
        Layer::Text(text) => tree == Tree::Text(text@),
        Layer::List(items) => tree == Tree::List(
            items@.map_values(|item: serde_json::Value| value_tree(item)),
        ),
        Layer::Object(entries) => tree matches Tree::Object(members) && lists_members(
            entries@,
            members,
        ),
    }
}

/// Takes a value of `serde_json` apart, by its variants; `Number::as_u64` and `Number::as_i64`
/// tell the integers from the other numbers. The layer is the outermost one of the value's tree.
#[verifier::external_body]
fn open_value(value: serde_json::Value) -> (layer: Layer)
    ensures
        layer_of(layer, value_tree(value)),
{
    match value {
        serde_json::Value::Null => Layer::Null,
        serde_json::Value::Bool(value) => Layer::Bool(value),
        serde_json::Value::Number(number) => match (number.as_u64(), number.as_i64()) {
            (Some(n), _) => Layer::UInt(n),
            (None, Some(n)) => Layer::Int(n),
            (None, None) => Layer::Decimal(number),
        },
        serde_json::Value::String(text) => Layer::Text(text),
        serde_json::Value::Array(items) => Layer::List(items),
        serde_json::Value::Object(members) => Layer::Object(members.into_iter().collect()),
    }
}

/// Makes a value of `serde_json` from its outermost layer. The keys of an object differ, so its
/// members are the entries.
#[verifier::external_body]
fn close_value(layer: Layer) -> (value: serde_json::Value)
    requires
        layer matches Layer::Decimal(number) ==> is_decimal(number),
        layer matches Layer::Object(entries) ==> distinct_keys(entries@),
    ensures
        layer_of(layer, value_tree(value)),
{
    match layer {
        Layer::Null => serde_json::Value::Null,
        Layer::Bool(value) => serde_json::Value::Bool(value),
        Layer::UInt(n) => serde_json::Value::from(n),
        Layer::Int(n) => serde_json::Value::from(n),
        Layer::Decimal(number) => serde_json::Value::Number(number),
        Layer::Text(text) => serde_json::Value::String(text),
        Layer::List(items) => serde_json::Value::Array(items),
        Layer::Object(entries) => serde_json::Value::Object(entries.into_iter().collect()),
    }
}

/// Every member comes from an entry.
proof fn lemma_member_has_entry(entries: Seq<(String, Json)>, key: Seq<char>)
    requires
        members(entries).contains_key(key),
    ensures
        exists|i: int| #![trigger entries[i]] 0 <= i < entries.len() && entries[i].0@ == key,
    decreases entries.len(),
{
    if entries.last().0@ != key {
        lemma_member_has_entry(entries.drop_last(), key);
        let i = choose|i: int|
            #![trigger entries.drop_last()[i]]
            0 <= i < entries.len() - 1 && entries.drop_last()[i].0@ == key;
        assert(entries[i].0@ == key);
    }
}

/// The last entry with a key gives the member.
proof fn lemma_last_entry_counts(entries: Seq<(String, Json)>, i: int)
    requires
        0 <= i < entries.len(),
        forall|j: int| #![trigger entries[j]] i < j < entries.len() ==> entries[j].0@ != entries[i].0@,
    ensures
        members(entries).contains_key(entries[i].0@),
        members(entries)[entries[i].0@] == tree(entries[i].1),
    decreases entries.len(),
{
    if i < entries.len() - 1 {
        assert(entries.drop_last()[i] == entries[i]);
        assert forall|j: int| #![trigger entries.drop_last()[j]]
            i < j < entries.len() - 1 implies entries.drop_last()[j].0@ != entries[i].0@ by {
            assert(entries[j].0@ != entries[i].0@);
        }
        lemma_last_entry_counts(entries.drop_last(), i);
        assert(entries[entries.len() - 1].0@ != entries[i].0@);
    }
}

/// The keys of listed members are finitely many.
proof fn lemma_listed_members_finite(
    entries: Seq<(String, serde_json::Value)>,
    members: Map<Seq<char>, Tree>,
)
    requires
        lists_members(entries, members),
    ensures
        members.dom().finite(),
{
    let keys = entries.map_values(|entry: (String, serde_json::Value)| entry.0@);
    vstd::seq_lib::seq_to_set_is_finite(keys);
    assert forall|key: Seq<char>| members.dom().contains(key) implies #[trigger] keys.to_set().contains(
        key,
    ) by {
        assert(members.contains_key(key));
        let i = choose|i: int| #![trigger entries[i]] 0 <= i < entries.len() && entries[i].0@ == key;
        assert(keys[i] == key);
    }
    assert(members.dom().subset_of(keys.to_set()));
    vstd::set_lib::lemma_set_subset_finite(keys.to_set(), members.dom());
}

/// The document with the tree of a value.
fn json_from_value(value: serde_json::Value) -> (json: Json)
    ensures
        json@ == value_tree(value),
    decreases value_tree(value),
{
    let ghost whole = value_tree(value);
    match open_value(value) {
        Layer::Null => Json::Null,
        Layer::Bool(value) => Json::Bool(value),
        Layer::UInt(n) => Json::UInt(n),
        Layer::Int(n) => Json::Int(n),
        Layer::Decimal(number) => {
            assert(value_tree(value) == Tree::Decimal(number));
            Json::Decimal(Decimal::new(number))
        },
        Layer::Text(text) => Json::Text(text),
        Layer::List(items) => {
            let ghost inner = items@.map_values(|item: serde_json::Value| value_tree(item));
            let mut documents: Vec<Json> = Vec::new();
            for item in it: items.into_iter()
                invariant
                    it.seq() == items@,
                    inner == items@.map_values(|item: serde_json::Value| value_tree(item)),
                    whole == Tree::List(inner),
                    whole == value_tree(value),
                    trees(documents@) == inner.take(it.index()),
            {
                assert(inner[it.index()] == value_tree(item));
                assert(decreases_to!(whole => whole->List_0));
                assert(decreases_to!(inner => inner[it.index()]));
                let document = json_from_value(item);
                proof {
                    lemma_trees_push(documents@, document);
                    assert(inner.take(it.index() + 1) =~= inner.take(it.index()).push(
                        inner[it.index()],
                    ));
                }
                documents.push(document);
            }
            assert(inner.take(items@.len() as int) =~= inner);
            Json::List(documents)
        },
        Layer::Object(entries) => {
            let ghost inner = whole->Object_0;
            proof {
                lemma_listed_members_finite(entries@, inner);
            }
            let mut listed: Vec<(String, Json)> = Vec::new();
            for entry in it: entries.into_iter()
                invariant
                    it.seq() == entries@,
                    whole == Tree::Object(inner),
                    whole == value_tree(value),
                    inner.dom().finite(),
                    lists_members(entries@, inner),
                    forall|key: Seq<char>| #[trigger]
                        members(listed@).contains_key(key) ==> inner.contains_key(key)
                            && members(listed@)[key] == inner[key],
                    forall|i: int|
                        #![trigger entries@[i]]
                        0 <= i < it.index() ==> members(listed@).contains_key(entries@[i].0@),
            {
                let ghost before = listed@;
                assert(entries@[it.index()] == entry);
                assert(inner.contains_key(entry.0@));
                assert(decreases_to!(whole => whole->Object_0));
                assert(decreases_to!(inner => inner[entry.0@]));
                let document = json_from_value(entry.1);
                listed.push((entry.0, document));
                proof {
                    assert(listed@.drop_last() =~= before);
                    assert(members(listed@) == members(before).insert(entry.0@, inner[entry.0@]));
                    assert forall|key: Seq<char>| #[trigger]
                        members(listed@).contains_key(key) implies inner.contains_key(key)
                        && members(listed@)[key] == inner[key] by {
                        if key != entry.0@ {
                            assert(members(before).contains_key(key));
                        }
                    }
                }
            }
            proof {
                assert forall|key: Seq<char>| inner.contains_key(key) implies #[trigger] members(
                    listed@,
                ).contains_key(key) by {
                    let i = choose|i: int|
                        #![trigger entries@[i]]
                        0 <= i < entries@.len() && entries@[i].0@ == key;
                }
                assert(members(listed@) =~= inner);
            }
            Json::Object(listed)
        },
    }
}

/// Whether an entry has the key.
fn lists_key(entries: &Vec<(String, serde_json::Value)>, key: &str) -> (listed: bool)
    ensures
        listed == exists|i: int|
            #![trigger entries@[i]]
            0 <= i < entries@.len() && entries@[i].0@ == key@,
{
    for i in 0..entries.len()
        invariant
            forall|j: int| #![trigger entries@[j]] 0 <= j < i ==> entries@[j].0@ != key@,
    {
        if same_text(entries[i].0.as_str(), key) {
            assert(entries@[i as int].0@ == key@);
            return true;
        }
    }
    false
}

/// The value with the tree of a document.
fn value_from_json(json: &Json) -> (value: serde_json::Value)
    ensures
        value_tree(value) == json@,
    decreases json,
{
    match json {
        Json::Null => close_value(Layer::Null),
        Json::Bool(value) => close_value(Layer::Bool(*value)),
        Json::UInt(n) => close_value(Layer::UInt(*n)),
        Json::Int(n) => close_value(Layer::Int(*n)),
        Json::Decimal(decimal) => close_value(Layer::Decimal(decimal.number())),
        Json::Text(text) => close_value(Layer::Text(text.clone())),
        Json::List(documents) => {
            let mut items: Vec<serde_json::Value> = Vec::new();
            for i in 0..documents.len()
                invariant
                    *json == Json::List(*documents),
                    items@.map_values(|item: serde_json::Value| value_tree(item)) == trees(
                        documents@.take(i as int),
                    ),
            {
                assert(decreases_to!(*json => json->List_0));
                assert(decreases_to!(*documents => documents@));
                assert(decreases_to!(documents@ => documents@[i as int]));
                let item = value_from_json(&documents[i]);
                let ghost before = items@;
                items.push(item);
                proof {
                    assert(documents@.take(i + 1).drop_last() =~= documents@.take(i as int));
                    assert(items@.map_values(|item: serde_json::Value| value_tree(item))
                        =~= before.map_values(|item: serde_json::Value| value_tree(item)).push(
                        value_tree(item),
                    ));
                }
            }
            assert(documents@.take(documents@.len() as int) =~= documents@);
            close_value(Layer::List(items))
        },
        Json::Object(listed) => {
            let ghost all = members(listed@);
            let mut entries: Vec<(String, serde_json::Value)> = Vec::new();
            let mut i: usize = listed.len();
            while i > 0
                invariant
                    i <= listed@.len(),
                    *json == Json::Object(*listed),
                    all == members(listed@),
                    distinct_keys(entries@),
                    forall|j: int|
                        #![trigger entries@[j]]
                        0 <= j < entries@.len() ==> all.contains_key(entries@[j].0@)
                            && all[entries@[j].0@] == value_tree(entries@[j].1),
                    forall|k: int|
                        #![trigger listed@[k]]
                        i <= k < listed@.len() ==> exists|j: int|
                            #![trigger entries@[j]]
                            0 <= j < entries@.len() && entries@[j].0@ == listed@[k].0@,
                decreases i,
            {
                i -= 1;
                let ghost before = entries@;
                if !lists_key(&entries, listed[i].0.as_str()) {
                    assert(decreases_to!(*json => json->Object_0));
                    assert(decreases_to!(*listed => listed@));
                    assert(decreases_to!(listed@ => listed@[i as int]));
                    assert(decreases_to!(listed@[i as int] => listed@[i as int].1));
                    let member = value_from_json(&listed[i].1);
                    proof {
                        assert forall|k: int| #![trigger listed@[k]]
                            i < k < listed@.len() implies listed@[k].0@ != listed@[i as int].0@ by {
                            let j = choose|j: int|
                                #![trigger entries@[j]]
                                0 <= j < entries@.len() && entries@[j].0@ == listed@[k].0@;
                        }
                        lemma_last_entry_counts(listed@, i as int);
                    }
                    entries.push((listed[i].0.clone(), member));
                    proof {
                        assert forall|k: int| #![trigger listed@[k]]
                            i <= k < listed@.len() implies exists|j: int|
                            #![trigger entries@[j]]
                            0 <= j < entries@.len() && entries@[j].0@ == listed@[k].0@ by {
                            if k == i {
                                assert(entries@[before.len() as int].0@ == listed@[k].0@);
                            } else {
                                let j = choose|j: int|
                                    #![trigger before[j]]
                                    0 <= j < before.len() && before[j].0@ == listed@[k].0@;
                                assert(entries@[j] == before[j]);
                            }
                        }
                    }
                }
            }
            proof {
                assert forall|key: Seq<char>| #[trigger] all.contains_key(key) implies exists|j: int|
                    #![trigger entries@[j]]
                    0 <= j < entries@.len() && entries@[j].0@ == key by {
                    lemma_member_has_entry(listed@, key);
                    let k = choose|k: int|
                        #![trigger listed@[k]]
                        0 <= k < listed@.len() && listed@[k].0@ == key;
                    assert(listed@[k].0@ == key);
                }
                assert(lists_members(entries@, all));
            }
            let ghost shown = entries@;
            let value = close_value(Layer::Object(entries));
            assert(value_tree(value)->Object_0 =~= all) by {
                let made = value_tree(value)->Object_0;
                assert forall|key: Seq<char>| made.contains_key(key) implies #[trigger] all.contains_key(
                    key,
                ) && made[key] == all[key] by {
                    let j = choose|j: int|
                        #![trigger shown[j]]
                        0 <= j < shown.len() && shown[j].0@ == key;
                    assert(shown[j].0@ == key);
                }
                assert forall|key: Seq<char>| all.contains_key(key) implies #[trigger] made.contains_key(
                    key,
                ) by {
                    let j = choose|j: int|
                        #![trigger shown[j]]
                        0 <= j < shown.len() && shown[j].0@ == key;
                    assert(shown[j].0@ == key);
                }
            }
            value
        },
    }
}

/// Reads a document from bytes.
pub fn parse_slice(bytes: &[u8]) -> (json: Result<Json, String>)
    ensures
        json_view(json) == parsed_slice(bytes@),
{
    match value_from_slice(bytes) {
        Ok(value) => Ok(json_from_value(value)),
        Err(cause) => Err(cause),
    }
}

/// Reads a document from a text. A further carriage return behind it would change nothing.
pub fn parse_str(text: &str) -> (json: Result<Json, serde_json::Error>)
    ensures
        document_view(json) == parsed_str(text@),
        document_view(json) == parsed_str(text@.push('\r')),
{
    match value_from_str(text) {
        Ok(value) => Ok(json_from_value(value)),
        Err(error) => Err(error),
    }
}

/// Writes a document as bytes.
pub fn to_vec(json: &Json) -> (bytes: Result<Vec<u8>, String>)
    ensures
        bytes matches Ok(written) && written@ == json_bytes(json@),
        bytes matches Ok(written) ==> are_bytes_of(written@, json@),
{
    value_to_vec(&value_from_json(json))
}

/// Writes a document as text.
pub fn to_string(json: &Json) -> (text: Result<String, String>)
    ensures
        text matches Ok(written) && written@ == json_text(json@),
        text matches Ok(written) ==> is_line_of(written@, json@),
{
    value_to_string(&value_from_json(json))
}

/// The text that a document displays as, which is its JSON.
pub fn display(json: &Json) -> (text: String)
    ensures
        text@ == json_text(json@),
        is_line_of(text@, json@),
{
    value_display(&value_from_json(json))
}

/// An object whose members read back one level further in reads back.
pub broadcast proof fn lemma_with_reads_back(
    object: Tree,
    key: Seq<char>,
    value: Tree,
    depth: nat,
)
    requires
        object is Object,
        depth > 0,
        reads_back(object, depth),
        reads_back(value, (depth - 1) as nat),
    ensures
        #[trigger] reads_back(object.with(key, value), depth),
{
    let before = object->Object_0;
    let after = before.insert(key, value);
    assert forall|k: Seq<char>| #[trigger] after.contains_key(k) implies reads_back(
        after[k],
        (depth - 1) as nat,
    ) by {
        if k != key {
            assert(before.contains_key(k));
        }
    }
}

/// What reads back within a depth does so within a greater one.
pub proof fn lemma_reads_back_deeper(tree: Tree, depth: nat, greater: nat)
    requires
        reads_back(tree, depth),
        depth <= greater,
    ensures
        reads_back(tree, greater),
    decreases depth,
{
    match tree {
        Tree::List(items) => {
            assert forall|i: int| 0 <= i < items.len() implies reads_back(
                #[trigger] items[i],
                (greater - 1) as nat,
            ) by {
                lemma_reads_back_deeper(items[i], (depth - 1) as nat, (greater - 1) as nat);
            }
        },
        Tree::Object(members) => {
            assert forall|key: Seq<char>| #[trigger] members.contains_key(key) implies reads_back(
                members[key],
                (greater - 1) as nat,
            ) by {
                lemma_reads_back_deeper(members[key], (depth - 1) as nat, (greater - 1) as nat);
            }
        },
        _ => {},
    }
}

/// A member of an object that reads back does so one level further in.
pub proof fn lemma_member_reads_back(object: Tree, key: Seq<char>, depth: nat)
    requires
        reads_back(object, depth),
        object.get(key) is Some,
    ensures
        depth > 0,
        reads_back(object.get(key)->0, (depth - 1) as nat),
{
    assert(object->Object_0.contains_key(key));
}

}

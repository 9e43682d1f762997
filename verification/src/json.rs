//! JSON documents: `serde_json::Value`, what it holds, and the calls that read,
//! build, parse and print it.
use crate::text::opt_text;
use vstd::prelude::*;

verus! {

/// What a JSON document holds. Integers are held by their value; the other numbers are
/// carried through unread.
pub enum JsonTree {
    Null,
    Bool(bool),
    Int(int),
    Float(serde_json::Number),
    Str(Seq<char>),
    Arr(Seq<JsonTree>),
    Obj(Map<Seq<char>, JsonTree>),
}

/// The members of a JSON object, by their names.
pub type Members = Map<Seq<char>, JsonTree>;

/// How many arrays and objects may stand inside one another in a text that
/// `serde_json` reads.
pub const MAX_DEPTH: usize = 127;

/// A JSON document, `serde_json::Value`. Verus sees it only through [`json_tree`].
#[verifier::external_type_specification]
#[verifier::external_body]
pub struct ExValue(serde_json::Value);

/// A JSON number, `serde_json::Number`; it is carried through unread.
#[verifier::external_type_specification]
#[verifier::external_body]
pub struct ExNumber(serde_json::Number);

/// The error of the JSON parser, `serde_json::Error`; nothing is read of it.
#[verifier::external_type_specification]
#[verifier::external_body]
pub struct ExError(serde_json::Error);

/// The members of a JSON object, `serde_json::Map`. Verus sees them only through
/// [`json_members`].
#[verifier::external_type_specification]
#[verifier::external_body]
#[verifier::reject_recursive_types(K)]
#[verifier::reject_recursive_types(V)]
pub struct ExMap<K, V>(serde_json::Map<K, V>);

/// What a `serde_json::Value` holds.
pub uninterp spec fn json_tree(value: serde_json::Value) -> JsonTree;

/// What a `serde_json::Map` holds.
pub uninterp spec fn json_members(members: serde_json::Map<String, serde_json::Value>) -> Map<Seq<char>, JsonTree>;

/// The document that `serde_json::from_str` reads out of a text, if it reads one.
pub uninterp spec fn json_parse(text: Seq<char>) -> Option<JsonTree>;

/// The document that `serde_json::from_slice` reads out of bytes, if it reads one.
pub uninterp spec fn json_parse_bytes(bytes: Seq<u8>) -> Option<JsonTree>;

/// The compact text that `serde_json::to_string` writes for a document.
pub uninterp spec fn json_text(tree: JsonTree) -> Seq<char>;

/// The indented text that `serde_json::to_string_pretty` writes for a document.
pub uninterp spec fn json_pretty(tree: JsonTree) -> Seq<char>;

/// What the documents of a sequence hold.
pub open spec fn json_trees(values: Seq<serde_json::Value>) -> Seq<JsonTree> {
    values.map_values(|value: serde_json::Value| json_tree(value))
}

/// No members at all.
pub open spec fn no_members() -> Members {
    Map::empty()
}

/// The member of `tree` under `key`: null where `tree` is no object or has no such member.
pub open spec fn tree_member(tree: JsonTree, key: Seq<char>) -> JsonTree {
    match tree {
        JsonTree::Obj(members) => if members.contains_key(key) {
            members[key]
        } else {
            JsonTree::Null
        },
        _ => JsonTree::Null,
    }
}

/// The string that `tree` is, if it is one.
pub open spec fn tree_str(tree: JsonTree) -> Option<Seq<char>> {
    match tree {
        JsonTree::Str(text) => Some(text),
        _ => None,
    }
}

/// The items of `tree`, if it is an array.
pub open spec fn tree_items(tree: JsonTree) -> Option<Seq<JsonTree>> {
    match tree {
        JsonTree::Arr(items) => Some(items),
        _ => None,
    }
}

/// The array that a text is, if it is one.
pub open spec fn json_parse_list(text: Seq<char>) -> Option<Seq<JsonTree>> {
    match json_parse(text) {
        Some(tree) => tree_items(tree),
        None => None,
    }
}

/// Whether no more than `depth` arrays and objects of a document stand inside one another.
pub open spec fn nested_within(tree: JsonTree, depth: nat) -> bool
    decreases depth,
{
    match tree {
        JsonTree::Arr(items) => depth > 0 && forall|i: int|
            0 <= i < items.len() ==> nested_within(#[trigger] items[i], (depth - 1) as nat),
        JsonTree::Obj(members) => depth > 0 && forall|key: Seq<char>|
            members.contains_key(key) ==> nested_within(#[trigger] members[key], (depth - 1) as nat),
        _ => true,
    }
}

/// Whether a document holds no number but integers.
pub open spec fn no_fractions(tree: JsonTree) -> bool
    decreases tree,
{
    match tree {
        JsonTree::Float(_) => false,
        JsonTree::Arr(items) => forall|i: int| 0 <= i < items.len() ==> no_fractions(#[trigger] items[i]),
        JsonTree::Obj(members) => forall|key: Seq<char>|
            members.contains_key(key) ==> no_fractions(#[trigger] members[key]),
        _ => true,
    }
}

/// Whether a document can be the one that a text or bytes are read as: it is not nested too deep.
pub open spec fn readable(tree: JsonTree) -> bool {
    nested_within(tree, MAX_DEPTH as nat)
}

/// Whether a document comes back unchanged when a text that was written for it is read.
pub open spec fn comes_back(tree: JsonTree) -> bool {
    readable(tree) && no_fractions(tree)
}

/// Whether a text that was written for a document is read as that document, where the
/// document comes back unchanged at all.
pub open spec fn reads_as(text: Seq<char>, tree: JsonTree) -> bool {
    comes_back(tree) ==> json_parse(text) == Some(tree)
}

/// `Value::as_str`: the string that a document is, and `None` for any other document.
pub assume_specification[ serde_json::Value::as_str ](value: &serde_json::Value) -> (res: Option<&str>)
    ensures
        (match res {
            Some(text) => Some(text@),
            None => None,
        }) == tree_str(json_tree(*value)),
;

/// `Value::as_array`: the items of a document that is an array, and `None` for any other.
pub assume_specification[ serde_json::Value::as_array ](value: &serde_json::Value) -> (res: Option<
    &Vec<serde_json::Value>,
>)
    ensures
        (match res {
            Some(items) => Some(json_trees(items@)),
            None => None,
        }) == tree_items(json_tree(*value)),
;

/// `Index` of `Value` with a string: the member under `key`, and null where the document
/// is no object or has no such member.
#[verifier::external_body]
pub(crate) fn json_member<'a>(value: &'a serde_json::Value, key: &str) -> (res: &'a serde_json::Value)
    ensures
        json_tree(*res) == tree_member(json_tree(*value), key@),
{
    &value[key]
}

/// `serde_json::from_str` into a `Value`: the document that the text is, or an error where
/// it is none. What a text is, is a function of the text alone. A document that is nested too
/// deep is not read.
#[verifier::external_body]
pub(crate) fn json_from_str(text: &str) -> (res: Result<serde_json::Value, serde_json::Error>)
    ensures
        (match res {
            Ok(value) => Some(json_tree(value)),
            Err(_) => None,
        }) == json_parse(text@),
        res matches Ok(value) ==> readable(json_tree(value)),
{
    serde_json::from_str::<serde_json::Value>(text)
}

/// `serde_json::from_slice` into a `Value`: the document that the bytes are, or an error
/// where they are none. What bytes are, is a function of the bytes alone. A document that is
/// nested too deep is not read.
#[verifier::external_body]
pub(crate) fn json_from_slice(bytes: &[u8]) -> (res: Result<serde_json::Value, serde_json::Error>)
    ensures
        (match res {
            Ok(value) => Some(json_tree(value)),
            Err(_) => None,
        }) == json_parse_bytes(bytes@),
        res matches Ok(value) ==> readable(json_tree(value)),
{
    serde_json::from_slice::<serde_json::Value>(bytes)
}

/// `serde_json::to_string` of a `Value`: the compact text of the document, which depends on
/// what the document holds alone. It is never refused: the keys of an object are strings
/// and its numbers are finite. A document that holds no number but integers, and is not
/// nested too deep, is read back from the text unchanged.
#[verifier::external_body]
pub(crate) fn json_to_string(value: &serde_json::Value) -> (text: String)
    ensures
        text@ == json_text(json_tree(*value)),
        comes_back(json_tree(*value)) ==> json_parse(text@) == Some(json_tree(*value)),
{
    serde_json::to_string(value).unwrap()
}

/// `serde_json::to_string_pretty` of a `Value`: the indented text of the document, of which
/// the same holds as of the compact one.
#[verifier::external_body]
pub(crate) fn json_to_string_pretty(value: &serde_json::Value) -> (text: String)
    ensures
        text@ == json_pretty(json_tree(*value)),
        comes_back(json_tree(*value)) ==> json_parse(text@) == Some(json_tree(*value)),
{
    serde_json::to_string_pretty(value).unwrap()
}

/// `Value::String`: the document that is a string.
#[verifier::external_body]
pub(crate) fn json_string(text: String) -> (value: serde_json::Value)
    ensures
        json_tree(value) == JsonTree::Str(text@),
{
    serde_json::Value::String(text)
}

/// `Value::Array`: the document that is an array.
#[verifier::external_body]
pub(crate) fn json_array(items: Vec<serde_json::Value>) -> (value: serde_json::Value)
    ensures
        json_tree(value) == JsonTree::Arr(json_trees(items@)),
{
    serde_json::Value::Array(items)
}

/// `Value::Object`: the document that is an object.
#[verifier::external_body]
pub(crate) fn json_object(members: serde_json::Map<String, serde_json::Value>) -> (value: serde_json::Value)
    ensures
        json_tree(value) == JsonTree::Obj(json_members(members)),
{
    serde_json::Value::Object(members)
}

/// `serde_json::Map::new`: no members.
#[verifier::external_body]
pub(crate) fn json_new_members() -> (members: serde_json::Map<String, serde_json::Value>)
    ensures
        json_members(members) == no_members(),
{
    serde_json::Map::new()
}

/// `serde_json::Map::insert`: the member under `key` is `value`; the others stay.
#[verifier::external_body]
pub(crate) fn json_insert(
    members: &mut serde_json::Map<String, serde_json::Value>,
    key: String,
    value: serde_json::Value,
)
    ensures
        json_members(*final(members)) == json_members(*old(members)).insert(key@, json_tree(value)),
{
    members.insert(key, value);
}

/// What is nested within some depth is nested within any greater one.
pub proof fn lemma_nested_more(tree: JsonTree, depth: nat, more: nat)
    requires
        nested_within(tree, depth),
        depth <= more,
    ensures
        nested_within(tree, more),
    decreases depth,
{
    match tree {
        JsonTree::Arr(items) => {
            assert forall|i: int| 0 <= i < items.len() implies nested_within(
                #[trigger] items[i],
                (more - 1) as nat,
            ) by {
                lemma_nested_more(items[i], (depth - 1) as nat, (more - 1) as nat);
            }
        },
        JsonTree::Obj(members) => {
            assert forall|key: Seq<char>| members.contains_key(key) implies nested_within(
                #[trigger] members[key],
                (more - 1) as nat,
            ) by {
                lemma_nested_more(members[key], (depth - 1) as nat, (more - 1) as nat);
            }
        },
        _ => {},
    }
}

/// The items of a list are nested within the depth that the list is.
proof fn lemma_items_nested(list: JsonTree, depth: nat)
    requires
        list is Arr,
        nested_within(list, depth),
    ensures
        forall|i: int| 0 <= i < list->Arr_0.len() ==> nested_within(#[trigger] list->Arr_0[i], depth),
{
    if let JsonTree::Arr(items) = list {
        assert forall|i: int| 0 <= i < items.len() implies nested_within(#[trigger] items[i], depth) by {
            lemma_nested_more(items[i], (depth - 1) as nat, depth);
        }
    }
}

/// The items of a list that was read could be read by themselves.
pub proof fn lemma_items_readable(items: Seq<JsonTree>)
    requires
        readable(JsonTree::Arr(items)),
    ensures
        forall|i: int| 0 <= i < items.len() ==> readable(#[trigger] items[i]),
{
    lemma_items_nested(JsonTree::Arr(items), MAX_DEPTH as nat);
}

/// Makes the member under `key` a string.
pub fn put_text(members: &mut serde_json::Map<String, serde_json::Value>, key: &str, text: &str)
    ensures
        json_members(*final(members)) == json_members(*old(members)).insert(key@, JsonTree::Str(text@)),
{
    json_insert(members, key.to_owned(), json_string(text.to_owned()));
}

/// The string under `key`, if the document is an object with a string there.
pub fn text_at(value: &serde_json::Value, key: &str) -> (text: Option<String>)
    ensures
        opt_text(text) == tree_str(tree_member(json_tree(*value), key@)),
{
    match json_member(value, key).as_str() {
        Some(text) => Some(text.to_owned()),
        None => None,
    }
}

/// What is read of a document: its member under a key, the string or the items that it is.
pub proof fn law_reading(tree: JsonTree, members: Members, key: Seq<char>, text: Seq<char>, items: Seq<JsonTree>)
    ensures
        members.contains_key(key) ==> tree_member(JsonTree::Obj(members), key) == members[key],
        !members.contains_key(key) ==> tree_member(JsonTree::Obj(members), key) == JsonTree::Null,
        tree !is Obj ==> tree_member(tree, key) == JsonTree::Null,
        tree_str(tree) == Some(text) <==> tree == JsonTree::Str(text),
        tree_str(tree) is None <==> tree !is Str,
        tree_items(tree) == Some(items) <==> tree == JsonTree::Arr(items),
        tree_items(tree) is None <==> tree !is Arr,
        no_members() == Map::<Seq<char>, JsonTree>::empty(),
{
}

/// A text is the list of items that the document it is read as has, and none where it is read as
/// no list.
pub proof fn law_reading_lists(text: Seq<char>, items: Seq<JsonTree>)
    ensures
        json_parse_list(text) == Some(items) <==> json_parse(text) == Some(JsonTree::Arr(items)),
{
}

/// What documents hold: one for one, in their order.
pub proof fn law_documents(values: Seq<serde_json::Value>)
    ensures
        json_trees(values).len() == values.len(),
        forall|i: int| 0 <= i < values.len() ==> (#[trigger] json_trees(values)[i]) == json_tree(values[i]),
{
}

} // verus!

//! Text comparison, joining and the naming rule of JSON files.
use vstd::prelude::*;
use vstd::string::*;

verus! {

/// The text of an optional string.
pub open spec fn opt_text(text: Option<String>) -> Option<Seq<char>> {
    match text {
        Some(text) => Some(text@),
        None => None,
    }
}

/// The texts of strings.
pub open spec fn texts(strings: Seq<String>) -> Seq<Seq<char>> {
    strings.map_values(|string: String| string@)
}

/// Whether two texts are the same.
pub fn same_text(left: &str, right: &str) -> (same: bool)
    ensures
        same == (left@ == right@),
{
    left.to_owned() == right.to_owned()
}

/// The two texts, one after the other.
pub fn join2(first: &str, second: &str) -> (joined: String)
    ensures
        joined@ == first@ + second@,
{
    first.to_owned().concat(second)
}

/// Whether a file name has the extension `json`: it ends in `.json`, and something
/// stands before that.
pub open spec fn has_json_extension(name: Seq<char>) -> bool {
    &&& name.len() > 5
    &&& name.subrange(name.len() - 5, name.len() as int) == ".json"@
}

/// Tells whether a file name has the extension `json`.
pub fn is_json_file(name: &str) -> (is_json: bool)
    ensures
        is_json == has_json_extension(name@),
{
    let length: usize = name.unicode_len();
    length > 5 && same_text(name.substring_char(length - 5, length), ".json")
}

/// A file name has the extension `json` if and only if it is something and then `.json`.
pub proof fn law_json_extension(name: Seq<char>, stem: Seq<char>)
    ensures
        stem.len() > 0 ==> has_json_extension(stem + ".json"@),
        has_json_extension(name) ==> name.len() > 5 && name == name.take(name.len() - 5) + ".json"@,
        name == stem + ".json"@ && stem.len() == 0 ==> !has_json_extension(name),
{
    reveal_strlit(".json");
    assert(".json"@.len() == 5);
    let named = stem + ".json"@;
    assert(named.subrange(named.len() - 5, named.len() as int) =~= ".json"@);
    if has_json_extension(name) {
        assert(name =~= name.take(name.len() - 5) + ".json"@);
    }
}

/// What optional and many texts are: one for one, in their order.
pub proof fn law_texts(text: String, strings: Seq<String>)
    ensures
        opt_text(Some(text)) == Some(text@),
        opt_text(None) is None,
        texts(strings).len() == strings.len(),
        forall|i: int| 0 <= i < strings.len() ==> (#[trigger] texts(strings)[i]) == strings[i]@,
{
}

} // verus!

//! The parameters of a query.
use crate::text::same_text;
use vstd::prelude::*;

verus! {

/// What the parameters are: names and values, in the order in which they were given.
pub open spec fn pairs(params: Seq<(String, String)>) -> Seq<(Seq<char>, Seq<char>)> {
    params.map_values(|param: (String, String)| (param.0@, param.1@))
}

/// The value of a parameter: the last one that was given for its name.
pub open spec fn value_of(params: Seq<(Seq<char>, Seq<char>)>, name: Seq<char>) -> Option<Seq<char>>
    decreases params.len(),
{
    if params.len() == 0 {
        None
    } else if params.last().0 == name {
        Some(params.last().1)
    } else {
        value_of(params.drop_last(), name)
    }
}

/// The value of a parameter.
pub fn param<'a>(params: &'a Vec<(String, String)>, name: &str) -> (value: Option<&'a String>)
    ensures
        (match value {
            Some(value) => Some(value@),
            None => None,
        }) == value_of(pairs(params@), name@),
{
    let mut i: usize = params.len();
    assert(pairs(params@).take(i as int) =~= pairs(params@));
    while i > 0
        invariant
            i <= params.len(),
            value_of(pairs(params@), name@) == value_of(pairs(params@).take(i as int), name@),
        decreases i,
    {
        i -= 1;
        assert(pairs(params@).take(i + 1).drop_last() =~= pairs(params@).take(i as int));
        assert(pairs(params@).take(i + 1).last() == (params@[i as int].0@, params@[i as int].1@));
        if same_text(params[i].0.as_str(), name) {
            return Some(&params[i].1);
        }
    }
    None
}

/// A parameter has the value that was given for its name last, and none where its name was not
/// given.
pub proof fn law_last_value_counts(params: Seq<(String, String)>, name: Seq<char>)
    ensures
        forall|i: int|
            0 <= i < params.len() && (#[trigger] params[i]).0@ == name && (forall|j: int|
                i < j < params.len() ==> (#[trigger] params[j]).0@ != name) ==> value_of(pairs(params), name) == Some(
                params[i].1@,
            ),
        (forall|i: int| 0 <= i < params.len() ==> (#[trigger] params[i]).0@ != name) ==> value_of(pairs(params), name)
            is None,
    decreases params.len(),
{
    if params.len() > 0 {
        let rest = params.drop_last();
        let last = params.len() - 1;
        law_last_value_counts(rest, name);
        assert(pairs(params).drop_last() =~= pairs(rest));
        assert(pairs(params).last() == (params[last].0@, params[last].1@));
        assert forall|i: int|
            0 <= i < params.len() && (#[trigger] params[i]).0@ == name && (forall|j: int|
                i < j < params.len() ==> (#[trigger] params[j]).0@ != name) implies value_of(pairs(params), name)
            == Some(params[i].1@) by {
            if i < last {
                assert(params[last].0@ != name);
                assert(rest[i].0@ == name);
                assert forall|j: int| i < j < rest.len() implies (#[trigger] rest[j]).0@ != name by {
                    assert(params[j].0@ != name);
                }
            }
        }
        if forall|i: int| 0 <= i < params.len() ==> (#[trigger] params[i]).0@ != name {
            assert(params[last].0@ != name);
            assert forall|j: int| 0 <= j < rest.len() implies (#[trigger] rest[j]).0@ != name by {
                assert(params[j].0@ != name);
            }
        }
    }
}

} // verus!

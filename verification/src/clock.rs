//! The time of day, as text.
use vstd::prelude::*;

verus! {

/// Whether a character is a decimal digit.
pub open spec fn is_digit(c: char) -> bool {
    '0' <= c <= '9'
}

/// Whether a text is a date and a time of day to the second: it ends in the year, the month,
/// the day, the hour, the minute and the second, as in `2024-05-06 07:08:09`. Years of more
/// than four digits have more before that.
pub open spec fn is_date_time(text: Seq<char>) -> bool {
    let end = text.subrange(text.len() - 19, text.len() as int);
    &&& text.len() >= 19
    &&& end[4] == '-' && end[7] == '-' && end[10] == ' ' && end[13] == ':' && end[16] == ':'
    &&& forall|i: int|
        0 <= i < 19 && i != 4 && i != 7 && i != 10 && i != 13 && i != 16 ==> is_digit(#[trigger] end[i])
}

/// Whether a text is the fraction of a second: empty, or a point and three, six or nine digits.
pub open spec fn is_fraction(text: Seq<char>) -> bool {
    text.len() == 0 || {
        &&& text.len() == 4 || text.len() == 7 || text.len() == 10
        &&& text[0] == '.'
        &&& forall|i: int| 1 <= i < text.len() ==> is_digit(#[trigger] text[i])
    }
}

/// Whether a text is a time to the second, in UTC.
pub open spec fn is_stamp(text: Seq<char>) -> bool {
    exists|second: Seq<char>| #[trigger] is_date_time(second) && text == second + " UTC"@
}

/// Whether a text is a time to a fraction of a second, in UTC.
pub open spec fn is_exact_stamp(text: Seq<char>) -> bool {
    exists|second: Seq<char>, fraction: Seq<char>| #[trigger]
        is_date_time(second) && #[trigger] is_fraction(fraction) && text == second + fraction + " UTC"@
}

/// `chrono::Utc::now` and the `Display` text of the time that it gives: the date, the time of
/// day with the fraction of the second, and `UTC`. Which time it is depends on the clock, so
/// that is not said.
#[verifier::external_body]
pub(crate) fn utc_now_text() -> (text: String)
    ensures
        is_exact_stamp(text@),
{
    chrono::Utc::now().to_string()
}

/// `chrono::Utc::now` and the text of its `format`, for the one format that is used here: the
/// date, the time of day to the second, and `UTC`. Which time it is depends on the clock, so
/// that is not said.
#[verifier::external_body]
fn utc_now_format(format: &str) -> (text: String)
    requires
        format@ == "%Y-%m-%d %H:%M:%S UTC"@,
    ensures
        is_stamp(text@),
{
    chrono::Utc::now().format(format).to_string()
}

/// The present time to the second, in UTC.
pub fn utc_now_stamp() -> (text: String)
    ensures
        is_stamp(text@),
{
    utc_now_format("%Y-%m-%d %H:%M:%S UTC")
}

/// A time to the second is at least nineteen characters of date and time of day, and then ` UTC`; so
/// is one to a fraction of a second, with the fraction between.
pub proof fn law_times_are_in_utc(text: Seq<char>)
    ensures
        is_stamp(text) ==> text.len() >= 23 && text.subrange(text.len() - 4, text.len() as int) == " UTC"@ && is_digit(
            text[text.len() - 5],
        ) && text[text.len() - 7] == ':' && text[text.len() - 10] == ':' && text[text.len() - 13] == ' '
            && text[text.len() - 16] == '-' && text[text.len() - 19] == '-',
        is_exact_stamp(text) ==> text.len() >= 23 && text.subrange(text.len() - 4, text.len() as int) == " UTC"@,
{
    reveal_strlit(" UTC");
    assert(" UTC"@.len() == 4);
    if is_stamp(text) {
        let second = choose|second: Seq<char>| #[trigger] is_date_time(second) && text == second + " UTC"@;
        let end = second.subrange(second.len() - 19, second.len() as int);
        assert(text.subrange(text.len() - 4, text.len() as int) =~= " UTC"@);
        assert(is_digit(end[18]));
        assert(end[18] == text[text.len() - 5]);
        assert(end[16] == text[text.len() - 7]);
        assert(end[13] == text[text.len() - 10]);
        assert(end[10] == text[text.len() - 13]);
        assert(end[7] == text[text.len() - 16]);
        assert(end[4] == text[text.len() - 19]);
    }
    if is_exact_stamp(text) {
        let (second, fraction) = choose|second: Seq<char>, fraction: Seq<char>| #[trigger]
            is_date_time(second) && #[trigger] is_fraction(fraction) && text == second + fraction + " UTC"@;
        assert(text.subrange(text.len() - 4, text.len() as int) =~= " UTC"@);
    }
}

} // verus!

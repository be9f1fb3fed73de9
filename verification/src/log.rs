//! Lines of the log.

use crate::calendar::{
    lemma_before_year, lemma_text, lemma_texts_sort, lemma_time_of, lemma_times_ascend, time_of,
};
use crate::text::{lemma_encode_concat, prefixed};
use chrono::DateTime;
use vstd::prelude::*;
use vstd::string::StringExecFns;
use vstd::utf8::{encode_utf8, is_ascii_chars, is_ascii_chars_encode_utf8};

verus! {

/// How the log writes a time: date and time of day, in UTC.
pub const TIME_FORMAT: &'static str = "%Y-%m-%d %H:%M:%S";

/// The time that lies a number of seconds after the start of 1970, in UTC, as the log writes it.
pub open spec fn utc_text(seconds: int) -> Seq<char> {
    time_of(seconds).text()
}

/// Holds of the seconds since 1970 that the `chrono` crate has a date for: those from the start
/// of the year -262143 to the end of the year 262142.
pub open spec fn on_calendar(seconds: int) -> bool {
    -8_334_601_228_800 <= seconds <= 8_210_266_876_799
}

/// `DateTime::from_timestamp` of the `chrono` crate, and `DateTime::format` for the time that it
/// makes: where the seconds are on the calendar, the time in the Gregorian calendar and in UTC,
/// each part in decimal digits.
#[verifier::external_body]
fn format_utc(seconds: i64, format: &str) -> (result: Option<String>)
    requires
        format@ == "%Y-%m-%d %H:%M:%S"@,
    ensures
        result is Some <==> on_calendar(seconds as int),
        result matches Some(text) ==> text@ == utc_text(seconds as int),
{
    let time = DateTime::from_timestamp(seconds, 0)?;
    Some(time.format(format).to_string())
}

/// A time in seconds as a signed number of 64 bits: from the middle of the range on it is below
/// zero.
pub open spec fn signed(timestamp: u64) -> int {
    if timestamp < 0x8000_0000_0000_0000 {
        timestamp as int
    } else {
        timestamp - 0x1_0000_0000_0000_0000
    }
}

/// A line of the log, as contracts see it.
pub open spec fn line(time: Seq<char>, message: Seq<char>) -> Seq<char> {
    "["@ + time + "]: "@ + message
}

/// The line of a message that is logged at a time.
pub fn line_at(time: &str, message: &str) -> (result: String)
    ensures
        result@ == line(time@, message@),
        result@ == "["@ + time@ + "]: "@ + message@,
{
    let mut result = prefixed("[", time);
    result.append("]: ");
    result.append(message);
    result
}

/// The line of a message that is logged a number of seconds after the start of 1970. There is
/// none for a time that is not on the calendar.
pub fn log_line(timestamp: u64, message: &str) -> (result: Option<String>)
    ensures
        result is Some <==> on_calendar(signed(timestamp)),
        result matches Some(text) ==> text@ == line(utc_text(signed(timestamp)), message@),
        timestamp < 0x8000_0000_0000_0000 ==> (result is Some <==> timestamp <= 8_210_266_876_799),
        timestamp < 0x8000_0000_0000_0000 ==> (result matches Some(text) ==> text@ == "["@ + time_of(
            timestamp as int,
        ).text() + "]: "@ + message@),
        timestamp >= 0x8000_0000_0000_0000 ==> (result is Some <==> timestamp
            - 0x1_0000_0000_0000_0000 >= -8_334_601_228_800),
        timestamp >= 0x8000_0000_0000_0000 ==> (result matches Some(text) ==> text@ == "["@
            + time_of(timestamp - 0x1_0000_0000_0000_0000).text() + "]: "@ + message@),
{
    let seconds: i64 = #[verifier::truncate] (timestamp as i64);
    assert(timestamp < 0x8000_0000_0000_0000 ==> timestamp as i64 == timestamp) by (bit_vector);
    assert(timestamp >= 0x8000_0000_0000_0000 ==> timestamp as i64 == timestamp
        - 0x1_0000_0000_0000_0000) by (bit_vector);
    match format_utc(seconds, TIME_FORMAT) {
        Some(time) => Some(line_at(time.as_str(), message)),
        None => None,
    }
}

/// The times on the calendar are those of the years from -262143 to 262142.
pub proof fn lemma_on_calendar(seconds: int)
    ensures
        on_calendar(seconds) <==> -262143 <= time_of(seconds).year <= 262142,
{
    lemma_time_of(seconds);
    lemma_before_year(time_of(seconds), -262143);
    lemma_before_year(time_of(seconds), 262143);
}

/// Holds of the times whose year is written in four digits: those from the start of the year 0 to
/// the end of the year 9999.
pub open spec fn short_year(timestamp: u64) -> bool {
    -62_167_219_200 <= signed(timestamp) < 253_402_300_800
}

/// The start of a line's bytes, up to where the message starts if the year has four digits.
pub open spec fn stamp(timestamp: u64, message: Seq<char>) -> Seq<u8> {
    encode_utf8(line(utc_text(signed(timestamp)), message)).take(23)
}

/// What comes before the message in a line whose year has four digits.
proof fn lemma_start(timestamp: u64)
    requires
        short_year(timestamp),
    ensures
        time_of(signed(timestamp)).valid(),
        time_of(signed(timestamp)).seconds() == signed(timestamp),
        0 <= time_of(signed(timestamp)).year <= 9999,
        utc_text(signed(timestamp)).len() == 19,
        ("["@ + utc_text(signed(timestamp)) + "]: "@).len() == 23,
        is_ascii_chars("["@ + utc_text(signed(timestamp)) + "]: "@),
{
    reveal_strlit("[");
    reveal_strlit("]: ");
    let time = time_of(signed(timestamp));
    lemma_time_of(signed(timestamp));
    lemma_before_year(time, 0);
    lemma_before_year(time, 10000);
    lemma_text(time);
}

/// Where the year has four digits, a stamp holds the time between brackets, a colon and a space,
/// and the message follows it.
pub proof fn lemma_stamp(timestamp: u64, message: Seq<char>)
    requires
        short_year(timestamp),
    ensures
        stamp(timestamp, message).len() == 23,
        stamp(timestamp, message) == encode_utf8("["@ + utc_text(signed(timestamp)) + "]: "@),
        encode_utf8(line(utc_text(signed(timestamp)), message)) == stamp(timestamp, message)
            + encode_utf8(message),
{
    lemma_start(timestamp);
    let start = "["@ + utc_text(signed(timestamp)) + "]: "@;
    is_ascii_chars_encode_utf8(start);
    lemma_encode_concat(start, message);
    assert(encode_utf8(start + message).take(23) == encode_utf8(start));
}

/// Holds where the first bytes come before the second ones by the first place where they differ.
pub open spec fn bytes_before(first: Seq<u8>, second: Seq<u8>) -> bool {
    exists|at: int|
        {
            &&& 0 <= at < first.len()
            &&& at < second.len()
            &&& #[trigger] first[at] < second[at]
            &&& first.take(at) == second.take(at)
        }
}

/// Where the years have four digits, the lines of the log sort by time, byte by byte, whatever
/// their messages, and their stamps tell every two different seconds apart.
pub proof fn lemma_lines_sort(first: u64, second: u64, message: Seq<char>, other: Seq<char>)
    requires
        short_year(first),
        short_year(second),
        signed(first) <= signed(second),
    ensures
        first == second <==> stamp(first, message) == stamp(second, other),
        signed(first) < signed(second) ==> bytes_before(stamp(first, message), stamp(second, other)),
        signed(first) < signed(second) ==> bytes_before(
            encode_utf8(line(utc_text(signed(first)), message)),
            encode_utf8(line(utc_text(signed(second)), other)),
        ),
{
    lemma_stamp(first, message);
    lemma_stamp(second, other);
    if first != second {
        reveal_strlit("[");
        lemma_start(first);
        lemma_start(second);
        let time = time_of(signed(first));
        let later = time_of(signed(second));
        if later.before(time) {
            lemma_times_ascend(later, time);
        }
        let at = lemma_texts_sort(time, later) + 1;
        is_ascii_chars_encode_utf8("["@ + time.text() + "]: "@);
        is_ascii_chars_encode_utf8("["@ + later.text() + "]: "@);
        let stamp_one = stamp(first, message);
        let stamp_two = stamp(second, other);
        assert(stamp_one[at] < stamp_two[at]);
        assert(stamp_one.take(at) == stamp_two.take(at));
        let line_one = encode_utf8(line(utc_text(signed(first)), message));
        let line_two = encode_utf8(line(utc_text(signed(second)), other));
        assert(line_one[at] < line_two[at]);
        assert(line_one.take(at) == line_two.take(at));
    }
}

/// A line bears the time that lies exactly its timestamp after the start of 1970, for every
/// timestamp of the lower half of the range; one of the upper half stands for as many seconds
/// before that as it falls short of the whole range. The time is one of the calendar, and stands
/// between brackets.
pub proof fn lemma_line_bears_its_time(timestamp: u64, message: Seq<char>)
    ensures
        ({
            let text = line(utc_text(signed(timestamp)), message);
            let time = time_of(
                if timestamp < 0x8000_0000_0000_0000 {
                    timestamp as int
                } else {
                    timestamp - 0x1_0000_0000_0000_0000
                },
            );
            let size = time.text().len() as int;
            &&& time.valid()
            &&& timestamp < 0x8000_0000_0000_0000 ==> time.seconds() == timestamp
            &&& timestamp >= 0x8000_0000_0000_0000 ==> time.seconds() == timestamp
                - 0x1_0000_0000_0000_0000
            &&& text[0] == '['
            &&& text.subrange(1, 1 + size) == time.text()
            &&& text[1 + size] == ']'
            &&& text[2 + size] == ':'
            &&& text[3 + size] == ' '
            &&& text.skip(4 + size) == message
        }),
{
    reveal_strlit("[");
    reveal_strlit("]: ");
    lemma_time_of(signed(timestamp));
    let time = utc_text(signed(timestamp));
    let text = line(time, message);
    assert(text.subrange(1, 1 + time.len() as int) == time);
    assert(text.skip(4 + time.len() as int) == message);
}

/// Of two timestamps before the year 10000 the smaller one has the line that sorts first, byte by
/// byte, whatever the messages: up to some place the lines agree, and there the byte of the earlier
/// line is the smaller one.
pub proof fn lemma_smaller_timestamp_sorts_first(
    first: u64,
    second: u64,
    message: Seq<char>,
    other: Seq<char>,
) -> (at: int)
    requires
        first < second < 253_402_300_800,
    ensures
        ({
            let earlier = encode_utf8(line(utc_text(signed(first)), message));
            let later = encode_utf8(line(utc_text(signed(second)), other));
            &&& 0 <= at < 23 <= earlier.len()
            &&& 23 <= later.len()
            &&& earlier[at] < later[at]
            &&& forall|i: int| 0 <= i < at ==> #[trigger] earlier[i] == later[i]
        }),
{
    lemma_lines_sort(first, second, message, other);
    lemma_stamp(first, message);
    lemma_stamp(second, other);
    let one = stamp(first, message);
    let two = stamp(second, other);
    let at = choose|at: int|
        {
            &&& 0 <= at < one.len()
            &&& at < two.len()
            &&& #[trigger] one[at] < two[at]
            &&& one.take(at) == two.take(at)
        };
    let earlier = encode_utf8(line(utc_text(signed(first)), message));
    let later = encode_utf8(line(utc_text(signed(second)), other));
    assert(earlier[at] == one[at] && later[at] == two[at]);
    assert forall|i: int| 0 <= i < at implies #[trigger] earlier[i] == later[i] by {
        assert(one.take(at)[i] == two.take(at)[i]);
        assert(earlier[i] == one[i] && later[i] == two[i]);
    }
    at
}

/// What follows in a message follows in its line, and lines of one time differ where their
/// messages do.
pub proof fn lemma_line_keeps_its_message(time: Seq<char>, message: Seq<char>, more: Seq<char>)
    ensures
        line(time, message + more) == line(time, message) + more,
        line(time, message) == line(time, more) <==> message == more,
        line(time, Seq::empty()).len() == time.len() + 4,
{
    reveal_strlit("[");
    reveal_strlit("]: ");
    assert(line(time, message + more) == line(time, message) + more);
    assert(line(time, message).skip(time.len() as int + 4) == message);
    assert(line(time, more).skip(time.len() as int + 4) == more);
}

/// The seconds that have a date are those from the start of the year -262143 to the end of the
/// year 262142, without a gap.
pub proof fn lemma_calendar_has_no_gap(seconds: int)
    ensures
        on_calendar(seconds) <==> -8_334_601_228_800 <= seconds <= 8_210_266_876_799,
        on_calendar(seconds) ==> -262143 <= time_of(seconds).year <= 262142,
        time_of(-8_334_601_228_800).year == -262143,
        time_of(8_210_266_876_799).year == 262142,
{
    lemma_on_calendar(seconds);
    lemma_time_of(-8_334_601_228_800);
    lemma_before_year(time_of(-8_334_601_228_800), -262143);
    lemma_before_year(time_of(-8_334_601_228_800), -262142);
    lemma_time_of(8_210_266_876_799);
    lemma_before_year(time_of(8_210_266_876_799), 262142);
    lemma_before_year(time_of(8_210_266_876_799), 262143);
}

} // verus!

//! Times of the Gregorian calendar, in UTC, and how they are written.

use vstd::prelude::*;
use vstd::utf8::is_ascii_chars;

verus! {

/// A time of the Gregorian calendar, to the second.
pub struct Civil {
    pub year: int,
    pub month: int,
    pub day: int,
    pub hour: int,
    pub minute: int,
    pub second: int,
}

/// Holds of the years with a day more than 365.
pub open spec fn leap(year: int) -> bool {
    year % 4 == 0 && (year % 100 != 0 || year % 400 == 0)
}

/// How many days a month has.
pub open spec fn month_days(year: int, month: int) -> int {
    if month == 2 {
        if leap(year) {
            29
        } else {
            28
        }
    } else if month == 4 || month == 6 || month == 9 || month == 11 {
        30
    } else {
        31
    }
}

/// How many days a year has before a month.
pub open spec fn days_before_month(year: int, month: int) -> int
    decreases month,
{
    if month <= 1 {
        0
    } else {
        days_before_month(year, month - 1) + month_days(year, month - 1)
    }
}

/// How many leap years there are from the year 1 to a year.
pub open spec fn leap_years(year: int) -> int {
    year / 4 - year / 100 + year / 400
}

/// How many days lie between the start of 1970 and the start of a year.
pub open spec fn days_before_year(year: int) -> int {
    365 * (year - 1970) + leap_years(year - 1) - leap_years(1969)
}

/// A number in decimal digits, with zeros before it up to a width.
pub open spec fn digits(number: nat, width: nat) -> Seq<char>
    decreases width, number,
{
    if number == 0 && width == 0 {
        Seq::empty()
    } else {
        digits(
            number / 10,
            if width > 0 {
                (width - 1) as nat
            } else {
                0
            },
        ).push((48 + number % 10) as char)
    }
}

/// A year as it is written: in four digits, and with a sign where that does not do.
pub open spec fn year_text(year: int) -> Seq<char> {
    if 0 <= year <= 9999 {
        digits(year as nat, 4)
    } else if year > 9999 {
        seq!['+'] + digits(year as nat, 4)
    } else {
        seq!['-'] + digits((-year) as nat, 4)
    }
}

impl Civil {
    /// Holds of the times that there are.
    pub open spec fn valid(self) -> bool {
        &&& 1 <= self.month <= 12
        &&& 1 <= self.day <= month_days(self.year, self.month)
        &&& 0 <= self.hour < 24
        &&& 0 <= self.minute < 60
        &&& 0 <= self.second < 60
    }

    /// How many days lie between the start of 1970 and the time's day.
    pub open spec fn days(self) -> int {
        days_before_year(self.year) + days_before_month(self.year, self.month) + self.day - 1
    }

    /// How many seconds lie between the start of the day and the time.
    pub open spec fn clock(self) -> int {
        self.hour * 3600 + self.minute * 60 + self.second
    }

    /// How many seconds lie between the start of 1970 and the time.
    pub open spec fn seconds(self) -> int {
        self.days() * 86400 + self.clock()
    }

    /// The time as it is written.
    pub open spec fn text(self) -> Seq<char> {
        year_text(self.year) + seq!['-'] + digits(self.month as nat, 2) + seq!['-'] + digits(
            self.day as nat,
            2,
        ) + seq![' '] + digits(self.hour as nat, 2) + seq![':'] + digits(self.minute as nat, 2)
            + seq![':'] + digits(self.second as nat, 2)
    }

    /// Holds where this time is the earlier one, read from the year down to the second.
    pub open spec fn before(self, other: Civil) -> bool {
        if self.year != other.year {
            self.year < other.year
        } else if self.month != other.month {
            self.month < other.month
        } else if self.day != other.day {
            self.day < other.day
        } else if self.hour != other.hour {
            self.hour < other.hour
        } else if self.minute != other.minute {
            self.minute < other.minute
        } else {
            self.second < other.second
        }
    }
}

/// The time that lies a number of seconds after the start of 1970.
pub open spec fn time_of(seconds: int) -> Civil {
    choose|time: Civil| #[trigger] time.valid() && time.seconds() == seconds
}

proof fn lemma_next_year(year: int)
    ensures
        days_before_year(year + 1) == days_before_year(year) + if leap(year) {
            366int
        } else {
            365int
        },
{
}

proof fn lemma_year_length(year: int)
    ensures
        days_before_month(year, 12) + month_days(year, 12) == if leap(year) {
            366int
        } else {
            365int
        },
{
    reveal_with_fuel(days_before_month, 13);
}

proof fn lemma_years_ascend(year: int, later: int)
    requires
        year <= later,
    ensures
        days_before_year(year) <= days_before_year(later),
    decreases later - year,
{
    if year < later {
        lemma_years_ascend(year, later - 1);
        lemma_next_year(later - 1);
    }
}

proof fn lemma_months_ascend(year: int, month: int, later: int)
    requires
        1 <= month <= later,
    ensures
        days_before_month(year, month) <= days_before_month(year, later),
        month < later ==> days_before_month(year, month) + month_days(year, month)
            <= days_before_month(year, later),
    decreases later - month,
{
    if month < later {
        lemma_months_ascend(year, month, later - 1);
    }
}

/// A day lies within its year.
proof fn lemma_day_in_year(time: Civil)
    requires
        time.valid(),
    ensures
        days_before_year(time.year) <= time.days() < days_before_year(time.year + 1),
{
    lemma_months_ascend(time.year, 1, time.month);
    lemma_months_ascend(time.year, time.month, 12);
    lemma_year_length(time.year);
    lemma_next_year(time.year);
}

/// The earlier of two times has fewer seconds behind it.
pub proof fn lemma_times_ascend(time: Civil, later: Civil)
    requires
        time.valid(),
        later.valid(),
        time.before(later),
    ensures
        time.seconds() < later.seconds(),
{
    if time.year < later.year {
        lemma_day_in_year(time);
        lemma_day_in_year(later);
        lemma_years_ascend(time.year + 1, later.year);
    } else if time.year == later.year && time.month < later.month {
        lemma_months_ascend(time.year, time.month, later.month);
    }
}

/// A time lies before the start of a year if its own year does.
pub proof fn lemma_before_year(time: Civil, year: int)
    requires
        time.valid(),
    ensures
        time.year < year <==> time.seconds() < days_before_year(year) * 86400,
{
    lemma_day_in_year(time);
    if time.year < year {
        lemma_years_ascend(time.year + 1, year);
    } else {
        lemma_years_ascend(year, time.year);
    }
}

/// Each day has a date.
proof fn lemma_date_exists(days: int) -> (time: Civil)
    ensures
        time.valid(),
        time.days() == days,
        time.clock() == 0,
    decreases
        if days >= 0 {
            days
        } else {
            -days
        },
{
    reveal_with_fuel(days_before_month, 2);
    if days == 0 {
        Civil { year: 1970, month: 1, day: 1, hour: 0, minute: 0, second: 0 }
    } else if days > 0 {
        let before = lemma_date_exists(days - 1);
        if before.day < month_days(before.year, before.month) {
            Civil { day: before.day + 1, ..before }
        } else if before.month < 12 {
            Civil { month: before.month + 1, day: 1, ..before }
        } else {
            lemma_year_length(before.year);
            lemma_next_year(before.year);
            Civil { year: before.year + 1, month: 1, day: 1, ..before }
        }
    } else {
        let after = lemma_date_exists(days + 1);
        if after.day > 1 {
            Civil { day: after.day - 1, ..after }
        } else if after.month > 1 {
            Civil {
                month: after.month - 1,
                day: month_days(after.year, after.month - 1),
                ..after
            }
        } else {
            lemma_year_length(after.year - 1);
            lemma_next_year(after.year - 1);
            Civil { year: after.year - 1, month: 12, day: 31, ..after }
        }
    }
}

/// Every number of seconds leads to a time, and to no other one.
pub proof fn lemma_time_of(seconds: int)
    ensures
        time_of(seconds).valid(),
        time_of(seconds).seconds() == seconds,
        forall|time: Civil| #[trigger] time.valid() && time.seconds() == seconds ==> time == time_of(
            seconds,
        ),
{
    let date = lemma_date_exists(seconds / 86400);
    let clock = seconds % 86400;
    let time = Civil {
        hour: clock / 3600,
        minute: clock % 3600 / 60,
        second: clock % 60,
        ..date
    };
    assert(time.days() == date.days());
    assert(time.valid() && time.seconds() == seconds);
    let chosen = time_of(seconds);
    assert forall|time: Civil| #[trigger] time.valid() && time.seconds() == seconds implies time
        == chosen by {
        if time.before(chosen) {
            lemma_times_ascend(time, chosen);
        } else if chosen.before(time) {
            lemma_times_ascend(chosen, time);
        }
    }
}

/// Ten to a power.
pub open spec fn ten_to(power: nat) -> nat
    decreases power,
{
    if power == 0 {
        1
    } else {
        10 * ten_to((power - 1) as nat)
    }
}

/// Holds where the first text comes before the second one by the first place where they differ.
pub open spec fn sorts_before(first: Seq<char>, second: Seq<char>, at: int) -> bool {
    &&& 0 <= at < first.len()
    &&& at < second.len()
    &&& first[at] < second[at]
    &&& forall|i: int| 0 <= i < at ==> #[trigger] first[i] == second[i]
}

/// A number that has room in a width fills the width with digits.
proof fn lemma_digits(number: nat, width: nat)
    requires
        number < ten_to(width),
    ensures
        digits(number, width).len() == width,
        forall|i: int| 0 <= i < width ==> '0' <= #[trigger] digits(number, width)[i] <= '9',
    decreases width,
{
    if width > 0 {
        lemma_digits(number / 10, (width - 1) as nat);
    }
}

/// Of two numbers in digits of one width the smaller one sorts first.
proof fn lemma_digits_sort(number: nat, larger: nat, width: nat) -> (at: int)
    requires
        number < larger < ten_to(width),
    ensures
        sorts_before(digits(number, width), digits(larger, width), at),
    decreases width,
{
    lemma_digits(number, width);
    lemma_digits(larger, width);
    let rest = (width - 1) as nat;
    lemma_digits(number / 10, rest);
    lemma_digits(larger / 10, rest);
    if number / 10 < larger / 10 {
        lemma_digits_sort(number / 10, larger / 10, rest)
    } else {
        width - 1
    }
}

/// A time of the years from 0 to 9999 is written in nineteen characters, all of them ASCII, each
/// part of it at a fixed place.
pub proof fn lemma_text(time: Civil)
    requires
        time.valid(),
        0 <= time.year <= 9999,
    ensures
        time.text().len() == 19,
        is_ascii_chars(time.text()),
        time.text().subrange(0, 4) == digits(time.year as nat, 4),
        time.text().subrange(5, 7) == digits(time.month as nat, 2),
        time.text().subrange(8, 10) == digits(time.day as nat, 2),
        time.text().subrange(11, 13) == digits(time.hour as nat, 2),
        time.text().subrange(14, 16) == digits(time.minute as nat, 2),
        time.text().subrange(17, 19) == digits(time.second as nat, 2),
        time.text()[4] == '-',
        time.text()[7] == '-',
        time.text()[10] == ' ',
        time.text()[13] == ':',
        time.text()[16] == ':',
{
    reveal_with_fuel(ten_to, 5);
    lemma_digits(time.year as nat, 4);
    lemma_digits(time.month as nat, 2);
    lemma_digits(time.day as nat, 2);
    lemma_digits(time.hour as nat, 2);
    lemma_digits(time.minute as nat, 2);
    lemma_digits(time.second as nat, 2);
}

/// A part of two texts that holds digits decides how they sort where what comes before is the
/// same.
proof fn lemma_part_sorts(
    first: Seq<char>,
    second: Seq<char>,
    start: int,
    width: nat,
    number: nat,
    larger: nat,
) -> (at: int)
    requires
        0 <= start,
        start + width <= first.len(),
        start + width <= second.len(),
        forall|i: int| 0 <= i < start ==> #[trigger] first[i] == second[i],
        first.subrange(start, start + width) == digits(number, width),
        second.subrange(start, start + width) == digits(larger, width),
        number < larger < ten_to(width),
    ensures
        sorts_before(first, second, at),
{
    let within = lemma_digits_sort(number, larger, width);
    assert(first[start + within] == first.subrange(start, start + width)[within]);
    assert(second[start + within] == second.subrange(start, start + width)[within]);
    assert forall|i: int| 0 <= i < start + within implies #[trigger] first[i] == second[i] by {
        if i >= start {
            assert(digits(number, width)[i - start] == first[i]);
            assert(digits(larger, width)[i - start] == second[i]);
        }
    }
    start + within
}

proof fn lemma_same_part(first: Seq<char>, second: Seq<char>, start: int, end: int)
    requires
        0 <= start <= end <= first.len(),
        end <= second.len(),
        first.subrange(start, end) == second.subrange(start, end),
    ensures
        forall|i: int| start <= i < end ==> #[trigger] first[i] == second[i],
{
    assert forall|i: int| start <= i < end implies #[trigger] first[i] == second[i] by {
        assert(first.subrange(start, end)[i - start] == first[i]);
        assert(second.subrange(start, end)[i - start] == second[i]);
    }
}

/// Of two times of one day the earlier one sorts first as it is written.
proof fn lemma_clocks_sort(time: Civil, later: Civil) -> (at: int)
    requires
        time.valid(),
        later.valid(),
        0 <= time.year <= 9999,
        0 <= later.year <= 9999,
        time.before(later),
        time.year == later.year,
        time.month == later.month,
        time.day == later.day,
        forall|i: int| 0 <= i < 10 ==> #[trigger] time.text()[i] == later.text()[i],
    ensures
        sorts_before(time.text(), later.text(), at),
{
    reveal_with_fuel(ten_to, 3);
    lemma_text(time);
    lemma_text(later);
    let first = time.text();
    let second = later.text();
    if time.hour != later.hour {
        lemma_part_sorts(first, second, 11, 2, time.hour as nat, later.hour as nat)
    } else {
        lemma_same_part(first, second, 11, 13);
        if time.minute != later.minute {
            lemma_part_sorts(first, second, 14, 2, time.minute as nat, later.minute as nat)
        } else {
            lemma_same_part(first, second, 14, 16);
            lemma_part_sorts(first, second, 17, 2, time.second as nat, later.second as nat)
        }
    }
}

/// Of two times of the years from 0 to 9999 the earlier one sorts first as it is written.
pub proof fn lemma_texts_sort(time: Civil, later: Civil) -> (at: int)
    requires
        time.valid(),
        later.valid(),
        0 <= time.year <= 9999,
        0 <= later.year <= 9999,
        time.before(later),
    ensures
        sorts_before(time.text(), later.text(), at),
{
    reveal_with_fuel(ten_to, 5);
    lemma_text(time);
    lemma_text(later);
    let first = time.text();
    let second = later.text();
    if time.year != later.year {
        lemma_part_sorts(first, second, 0, 4, time.year as nat, later.year as nat)
    } else {
        lemma_same_part(first, second, 0, 4);
        if time.month != later.month {
            lemma_part_sorts(first, second, 5, 2, time.month as nat, later.month as nat)
        } else {
            lemma_same_part(first, second, 5, 7);
            if time.day != later.day {
                lemma_part_sorts(first, second, 8, 2, time.day as nat, later.day as nat)
            } else {
                lemma_same_part(first, second, 8, 10);
                lemma_clocks_sort(time, later)
            }
        }
    }
}

/// How time goes on: the start of 1970 is the second zero, and from each second to the next the
/// clock goes on by one, the day follows at midnight, the month after its last day and the year
/// after its last month. February has 29 days in the years that four divides, but not in those
/// that a hundred divides and four hundred does not.
pub proof fn lemma_time_goes_on(seconds: int)
    ensures
        time_of(0) == (Civil { year: 1970, month: 1, day: 1, hour: 0, minute: 0, second: 0 }),
        ({
            let now = time_of(seconds);
            let next = time_of(seconds + 1);
            let days: int = if now.month == 2 {
                if now.year % 4 == 0 && (now.year % 100 != 0 || now.year % 400 == 0) {
                    29
                } else {
                    28
                }
            } else if now.month == 4 || now.month == 6 || now.month == 9 || now.month == 11 {
                30
            } else {
                31
            };
            &&& 0 <= now.second <= 59
            &&& 0 <= now.minute <= 59
            &&& 0 <= now.hour <= 23
            &&& 1 <= now.day <= days
            &&& 1 <= now.month <= 12
            &&& next == if now.second < 59 {
                Civil { second: now.second + 1, ..now }
            } else if now.minute < 59 {
                Civil { minute: now.minute + 1, second: 0, ..now }
            } else if now.hour < 23 {
                Civil { hour: now.hour + 1, minute: 0, second: 0, ..now }
            } else if now.day < days {
                Civil { day: now.day + 1, hour: 0, minute: 0, second: 0, ..now }
            } else if now.month < 12 {
                Civil { month: now.month + 1, day: 1, hour: 0, minute: 0, second: 0, ..now }
            } else {
                Civil { year: now.year + 1, month: 1, day: 1, hour: 0, minute: 0, second: 0 }
            }
        }),
{
    reveal_with_fuel(days_before_month, 2);
    let epoch = Civil { year: 1970, month: 1, day: 1, hour: 0, minute: 0, second: 0 };
    lemma_time_of(0);
    assert(epoch.valid() && epoch.seconds() == 0);
    lemma_time_of(seconds);
    lemma_time_of(seconds + 1);
    let now = time_of(seconds);
    lemma_year_length(now.year);
    lemma_next_year(now.year);
    let next = if now.second < 59 {
        Civil { second: now.second + 1, ..now }
    } else if now.minute < 59 {
        Civil { minute: now.minute + 1, second: 0, ..now }
    } else if now.hour < 23 {
        Civil { hour: now.hour + 1, minute: 0, second: 0, ..now }
    } else if now.day < month_days(now.year, now.month) {
        Civil { day: now.day + 1, hour: 0, minute: 0, second: 0, ..now }
    } else if now.month < 12 {
        Civil { month: now.month + 1, day: 1, hour: 0, minute: 0, second: 0, ..now }
    } else {
        Civil { year: now.year + 1, month: 1, day: 1, hour: 0, minute: 0, second: 0 }
    };
    assert(next.valid() && next.seconds() == seconds + 1);
}

/// The number that decimal digits spell.
pub open spec fn spelled(text: Seq<char>) -> int
    decreases text.len(),
{
    if text.len() == 0 {
        0
    } else {
        10 * spelled(text.drop_last()) + (text.last() as int - 48)
    }
}

/// A number is read from its digits again. There are as many as the width asks for, or more where
/// the number needs them, and then the first is no zero.
pub proof fn lemma_digits_spell(number: nat, width: nat)
    ensures
        spelled(digits(number, width)) == number,
        digits(number, width).len() >= width,
        digits(number, width).len() > width ==> digits(number, width)[0] != '0',
        forall|i: int|
            0 <= i < digits(number, width).len() ==> '0' <= #[trigger] digits(number, width)[i]
                <= '9',
    decreases width, number,
{
    if number > 0 || width > 0 {
        let rest: nat = if width > 0 {
            (width - 1) as nat
        } else {
            0
        };
        lemma_digits_spell(number / 10, rest);
        let text = digits(number, width);
        assert(text.drop_last() == digits(number / 10, rest));
    }
}

/// A time is read from its text again: behind the year, at fixed places from the end, stand the
/// month, the day, the hour, the minute and the second in two digits each, and before them the
/// year in four digits, or in more behind a plus, or behind a minus.
pub proof fn lemma_text_spells_time(time: Civil)
    requires
        time.valid(),
    ensures
        ({
            let text = time.text();
            let end = text.len() as int;
            &&& end >= 19
            &&& spelled(text.subrange(end - 14, end - 12)) == time.month
            &&& spelled(text.subrange(end - 11, end - 9)) == time.day
            &&& spelled(text.subrange(end - 8, end - 6)) == time.hour
            &&& spelled(text.subrange(end - 5, end - 3)) == time.minute
            &&& spelled(text.subrange(end - 2, end)) == time.second
            &&& text[end - 15] == '-'
            &&& text[end - 12] == '-'
            &&& text[end - 9] == ' '
            &&& text[end - 6] == ':'
            &&& text[end - 3] == ':'
            &&& 0 <= time.year <= 9999 ==> end == 19 && spelled(text.subrange(0, 4)) == time.year
            &&& time.year > 9999 ==> text[0] == '+' && text[1] != '0' && spelled(
                text.subrange(1, end - 15),
            ) == time.year
            &&& time.year < 0 ==> text[0] == '-' && spelled(text.subrange(1, end - 15))
                == -time.year
            &&& time.year < 0 && end > 20 ==> text[1] != '0'
        }),
{
    reveal_with_fuel(ten_to, 5);
    lemma_digits(time.month as nat, 2);
    lemma_digits(time.day as nat, 2);
    lemma_digits(time.hour as nat, 2);
    lemma_digits(time.minute as nat, 2);
    lemma_digits(time.second as nat, 2);
    lemma_digits_spell(time.month as nat, 2);
    lemma_digits_spell(time.day as nat, 2);
    lemma_digits_spell(time.hour as nat, 2);
    lemma_digits_spell(time.minute as nat, 2);
    lemma_digits_spell(time.second as nat, 2);
    let text = time.text();
    let end = text.len() as int;
    let year = year_text(time.year);
    if 0 <= time.year <= 9999 {
        lemma_digits(time.year as nat, 4);
        lemma_digits_spell(time.year as nat, 4);
        assert(text.subrange(0, 4) == year);
    } else {
        let size: nat = if time.year > 9999 {
            time.year as nat
        } else {
            (-time.year) as nat
        };
        lemma_digits_spell(size, 4);
        if time.year > 9999 {
            lemma_wide_digits(size, 4);
        }
        assert(text.subrange(1, end - 15) == digits(size, 4));
    }
    assert(text.subrange(end - 14, end - 12) == digits(time.month as nat, 2));
    assert(text.subrange(end - 11, end - 9) == digits(time.day as nat, 2));
    assert(text.subrange(end - 8, end - 6) == digits(time.hour as nat, 2));
    assert(text.subrange(end - 5, end - 3) == digits(time.minute as nat, 2));
    assert(text.subrange(end - 2, end) == digits(time.second as nat, 2));
}

/// A number that has no room in a width takes more digits.
proof fn lemma_wide_digits(number: nat, width: nat)
    requires
        number >= ten_to(width),
    ensures
        digits(number, width).len() > width,
    decreases width,
{
    if width > 0 {
        lemma_wide_digits(number / 10, (width - 1) as nat);
    }
}

} // verus!

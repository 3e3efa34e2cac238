//! HTTP dates in the fixed-length format, `Sun, 06 Nov 1994 08:49:37 GMT`.

use crate::number::digit_char;
use crate::text::chars_of;
use vstd::prelude::*;

verus! {

/// A point in time, to the second, in the Gregorian calendar and in GMT.
#[derive(Debug, Clone, Copy, PartialEq, Eq, Structural)]
pub struct HttpDate {
    /// The year, at most 9999.
    pub year: u16,
    /// The month, from 1 to 12.
    pub month: u8,
    /// The day of the month, from 1.
    pub day: u8,
    /// The hour, below 24.
    pub hour: u8,
    /// The minute, below 60.
    pub minute: u8,
    /// The second, below 60.
    pub second: u8,
    /// The day of the week, from 0 for Sunday to 6 for Saturday.
    pub weekday: u8,
}

/// Whether `year` is a leap year.
pub open spec fn is_leap(year: int) -> bool {
    year % 4 == 0 && (year % 100 != 0 || year % 400 == 0)
}

/// The number of days of `year`.
pub open spec fn days_in_year(year: int) -> int {
    if is_leap(year) {
        366
    } else {
        365
    }
}

/// The number of days of the month `month` of `year`.
pub open spec fn days_in_month(year: int, month: int) -> int {
    if month == 2 {
        if is_leap(year) {
            29
        } else {
            28
        }
    } else if month == 4 || month == 6 || month == 9 || month == 11 {
        30
    } else {
        31
    }
}

/// The number of days from the start of 1970 to the start of `year`.
pub open spec fn days_before_year(year: int) -> int
    decreases year,
{
    if year <= 1970 {
        0
    } else {
        days_before_year(year - 1) + days_in_year(year - 1)
    }
}

/// The number of days from the start of `year` to the start of its month
/// `month`.
pub open spec fn days_before_month(year: int, month: int) -> int
    decreases month,
{
    if month <= 1 {
        0
    } else {
        days_before_month(year, month - 1) + days_in_month(year, month - 1)
    }
}

/// The three-letter name of a day of the week, from 0 for Sunday.
pub open spec fn weekday_name(weekday: int) -> Seq<char> {
    if weekday == 0 {
        seq!['S', 'u', 'n']
    } else if weekday == 1 {
        seq!['M', 'o', 'n']
    } else if weekday == 2 {
        seq!['T', 'u', 'e']
    } else if weekday == 3 {
        seq!['W', 'e', 'd']
    } else if weekday == 4 {
        seq!['T', 'h', 'u']
    } else if weekday == 5 {
        seq!['F', 'r', 'i']
    } else {
        seq!['S', 'a', 't']
    }
}

/// The three-letter name of a month, from 1 for January.
pub open spec fn month_name(month: int) -> Seq<char> {
    if month == 1 {
        seq!['J', 'a', 'n']
    } else if month == 2 {
        seq!['F', 'e', 'b']
    } else if month == 3 {
        seq!['M', 'a', 'r']
    } else if month == 4 {
        seq!['A', 'p', 'r']
    } else if month == 5 {
        seq!['M', 'a', 'y']
    } else if month == 6 {
        seq!['J', 'u', 'n']
    } else if month == 7 {
        seq!['J', 'u', 'l']
    } else if month == 8 {
        seq!['A', 'u', 'g']
    } else if month == 9 {
        seq!['S', 'e', 'p']
    } else if month == 10 {
        seq!['O', 'c', 't']
    } else if month == 11 {
        seq!['N', 'o', 'v']
    } else {
        seq!['D', 'e', 'c']
    }
}

/// A number below one hundred in two digits.
pub open spec fn two_digits(n: int) -> Seq<char> {
    seq![digit_char((n / 10) as nat), digit_char((n % 10) as nat)]
}

/// A number below ten thousand in four digits.
pub open spec fn four_digits(n: int) -> Seq<char> {
    two_digits(n / 100) + two_digits(n % 100)
}

/// The number that the `count` characters of `s` from `at` on stand for, if
/// they are all decimal digits.
pub open spec fn digits_at(s: Seq<char>, at: int, count: int) -> Option<int>
    decreases count,
{
    if count <= 0 {
        Some(0)
    } else {
        let c = s[at + count - 1];
        match digits_at(s, at, count - 1) {
            Some(n) => if '0' <= c && c <= '9' {
                Some(n * 10 + (c as u32 - 48))
            } else {
                None
            },
            None => None,
        }
    }
}

/// The day of the week with the given three-letter name.
pub open spec fn weekday_of(name: Seq<char>) -> Option<int> {
    if name == weekday_name(0) {
        Some(0)
    } else if name == weekday_name(1) {
        Some(1)
    } else if name == weekday_name(2) {
        Some(2)
    } else if name == weekday_name(3) {
        Some(3)
    } else if name == weekday_name(4) {
        Some(4)
    } else if name == weekday_name(5) {
        Some(5)
    } else if name == weekday_name(6) {
        Some(6)
    } else {
        None
    }
}

/// The month with the given three-letter name.
pub open spec fn month_of(name: Seq<char>) -> Option<int> {
    if name == month_name(1) {
        Some(1)
    } else if name == month_name(2) {
        Some(2)
    } else if name == month_name(3) {
        Some(3)
    } else if name == month_name(4) {
        Some(4)
    } else if name == month_name(5) {
        Some(5)
    } else if name == month_name(6) {
        Some(6)
    } else if name == month_name(7) {
        Some(7)
    } else if name == month_name(8) {
        Some(8)
    } else if name == month_name(9) {
        Some(9)
    } else if name == month_name(10) {
        Some(10)
    } else if name == month_name(11) {
        Some(11)
    } else if name == month_name(12) {
        Some(12)
    } else {
        None
    }
}

impl HttpDate {
    /// Whether the fields are a date and a time of day.
    pub open spec fn well_formed(self) -> bool {
        &&& self.year <= 9999
        &&& 1 <= self.month <= 12
        &&& 1 <= self.day <= days_in_month(self.year as int, self.month as int)
        &&& self.hour < 24
        &&& self.minute < 60
        &&& self.second < 60
        &&& self.weekday < 7
    }

    /// The number of days from the start of 1970 to this date.
    pub open spec fn day_number(self) -> int {
        days_before_year(self.year as int) + days_before_month(self.year as int, self.month as int)
            + self.day - 1
    }

    /// The number of seconds from the start of 1970 to this point in time.
    pub open spec fn timestamp(self) -> int {
        self.day_number() * 86400 + self.hour * 3600 + self.minute * 60 + self.second
    }

    /// Whether this is the date of the second `secs` after the start of
    /// 1970, with its day of the week.
    pub open spec fn is_date_of(self, secs: u64) -> bool {
        &&& self.well_formed()
        &&& self.year >= 1970
        &&& self.timestamp() == secs
        &&& self.weekday == (self.day_number() + 4) % 7
    }

    /// The date and time of day of the second `secs` after the start of
    /// 1970.
    pub open spec fn of_unix(secs: u64) -> HttpDate {
        choose|date: HttpDate| date.is_date_of(secs)
    }

    /// Whether this point in time comes before `other`.
    pub open spec fn before(self, other: HttpDate) -> bool {
        ||| self.year < other.year
        ||| (self.year == other.year && self.month < other.month)
        ||| (self.year == other.year && self.month == other.month && self.day < other.day)
        ||| (self.year == other.year && self.month == other.month && self.day == other.day
            && self.hour < other.hour)
        ||| (self.year == other.year && self.month == other.month && self.day == other.day
            && self.hour == other.hour && self.minute < other.minute)
        ||| (self.year == other.year && self.month == other.month && self.day == other.day
            && self.hour == other.hour && self.minute == other.minute && self.second
            < other.second)
    }

    /// The day as an HTTP header writes it, `Sun, 06 Nov 1994`.
    pub open spec fn day_text(self) -> Seq<char> {
        weekday_name(self.weekday as int) + seq![',', ' '] + two_digits(self.day as int) + seq![' ']
            + month_name(self.month as int) + seq![' '] + four_digits(self.year as int)
    }

    /// The time of day as an HTTP header writes it, `08:49:37`.
    pub open spec fn time_text(self) -> Seq<char> {
        two_digits(self.hour as int) + seq![':'] + two_digits(self.minute as int) + seq![':']
            + two_digits(self.second as int)
    }

    /// The date as an HTTP header writes it, `Sun, 06 Nov 1994 08:49:37 GMT`.
    pub open spec fn text(self) -> Seq<char> {
        self.day_text() + seq![' '] + self.time_text() + seq![' ', 'G', 'M', 'T']
    }

    /// The date that `s` writes, if `s` is a well-formed date in the
    /// fixed-length format. The day of the week is read, not checked against
    /// the date.
    pub open spec fn parse_spec(s: Seq<char>) -> Option<HttpDate> {
        if s.len() == 29 && s[3] == ',' && s[4] == ' ' && s[7] == ' ' && s[11] == ' ' && s[16]
            == ' ' && s[19] == ':' && s[22] == ':' && s.subrange(25, 29) == seq![
            ' ',
            'G',
            'M',
            'T',
        ] {
            match (
                weekday_of(s.subrange(0, 3)),
                digits_at(s, 5, 2),
                month_of(s.subrange(8, 11)),
                digits_at(s, 12, 4),
                digits_at(s, 17, 2),
                digits_at(s, 20, 2),
                digits_at(s, 23, 2),
            ) {
                (
                    Some(weekday),
                    Some(day),
                    Some(month),
                    Some(year),
                    Some(hour),
                    Some(minute),
                    Some(second),
                ) => {
                    if 1 <= day <= days_in_month(year, month) && hour < 24 && minute < 60 && second
                        < 60 {
                        Some(
                            HttpDate {
                                year: year as u16,
                                month: month as u8,
                                day: day as u8,
                                hour: hour as u8,
                                minute: minute as u8,
                                second: second as u8,
                                weekday: weekday as u8,
                            },
                        )
                    } else {
                        None
                    }
                },
                _ => None,
            }
        } else {
            None
        }
    }
}

/// Executable form of [`is_leap`].
fn leap(year: u16) -> (r: bool)
    ensures
        r == is_leap(year as int),
{
    year % 4 == 0 && (year % 100 != 0 || year % 400 == 0)
}

/// Executable form of [`days_in_year`].
fn year_length(year: u16) -> (r: u64)
    ensures
        r == days_in_year(year as int),
{
    if leap(year) {
        366
    } else {
        365
    }
}

/// Executable form of [`days_in_month`].
fn month_length(year: u16, month: u8) -> (r: u8)
    ensures
        r == days_in_month(year as int, month as int),
{
    if month == 2 {
        if leap(year) {
            29
        } else {
            28
        }
    } else if month == 4 || month == 6 || month == 9 || month == 11 {
        30
    } else {
        31
    }
}

/// The twelve months of a year make up the year.
proof fn lemma_months_make_a_year(year: int)
    ensures
        days_before_month(year, 13) == days_in_year(year),
{
    reveal_with_fuel(days_before_month, 14);
}

/// Reads `count` decimal digits of `v` from `at` on.
fn read_digits(v: &[char], at: usize, count: usize) -> (r: Option<u16>)
    requires
        at + count <= v.len(),
        count <= 4,
    ensures
        match r {
            Some(n) => digits_at(v@, at as int, count as int) == Some(n as int) && n < pow10(
                count as int,
            ),
            None => digits_at(v@, at as int, count as int).is_none(),
        },
{
    let mut n: u16 = 0;
    let mut k: usize = 0;
    while k < count
        invariant
            k <= count <= 4,
            at + count <= v.len(),
            digits_at(v@, at as int, k as int) == Some(n as int),
            n < pow10(k as int),
        decreases count - k,
    {
        let c = v[at + k];
        if !('0' <= c && c <= '9') {
            proof {
                lemma_digits_at_fail(v@, at as int, k as int + 1, count as int);
            }
            return None;
        }
        n = n * 10 + (c as u8 - 48) as u16;
        k += 1;
    }
    Some(n)
}

/// Ten to the power of `k`, for the few `k` that occur here.
spec fn pow10(k: int) -> int {
    if k <= 0 {
        1
    } else if k == 1 {
        10
    } else if k == 2 {
        100
    } else if k == 3 {
        1000
    } else {
        10000
    }
}

/// Once a prefix of the digits cannot be read, no longer one can.
proof fn lemma_digits_at_fail(s: Seq<char>, at: int, k: int, count: int)
    requires
        0 <= k <= count,
        digits_at(s, at, k).is_none(),
    ensures
        digits_at(s, at, count).is_none(),
    decreases count - k,
{
    if k < count {
        lemma_digits_at_fail(s, at, k + 1, count);
    }
}

/// Reads the name of a day of the week at the start of `v`.
fn read_weekday(v: &[char]) -> (r: Option<u8>)
    requires
        v.len() >= 3,
    ensures
        match r {
            Some(w) => weekday_of(v@.subrange(0, 3)) == Some(w as int) && w < 7,
            None => weekday_of(v@.subrange(0, 3)).is_none(),
        },
{
    let ghost name = v@.subrange(0, 3);
    assert(name == seq![v@[0], v@[1], v@[2]]);
    let r = match (v[0], v[1], v[2]) {
        ('S', 'u', 'n') => Some(0u8),
        ('M', 'o', 'n') => Some(1u8),
        ('T', 'u', 'e') => Some(2u8),
        ('W', 'e', 'd') => Some(3u8),
        ('T', 'h', 'u') => Some(4u8),
        ('F', 'r', 'i') => Some(5u8),
        ('S', 'a', 't') => Some(6u8),
        _ => None,
    };
    proof {
        assert forall|w: int| 0 <= w < 7 && name == weekday_name(w) implies r == Some(w as u8) by {
            assert(weekday_name(w)[0] == v@[0]);
            assert(weekday_name(w)[1] == v@[1]);
            assert(weekday_name(w)[2] == v@[2]);
        }
    }
    r
}

/// Reads the name of a month at `at` in `v`.
fn read_month(v: &[char], at: usize) -> (r: Option<u8>)
    requires
        at + 3 <= v.len(),
    ensures
        match r {
            Some(m) => month_of(v@.subrange(at as int, at + 3)) == Some(m as int) && 1 <= m <= 12,
            None => month_of(v@.subrange(at as int, at + 3)).is_none(),
        },
{
    let ghost name = v@.subrange(at as int, at + 3);
    assert(name == seq![v@[at as int], v@[at + 1], v@[at + 2]]);
    let r = match (v[at], v[at + 1], v[at + 2]) {
        ('J', 'a', 'n') => Some(1u8),
        ('F', 'e', 'b') => Some(2u8),
        ('M', 'a', 'r') => Some(3u8),
        ('A', 'p', 'r') => Some(4u8),
        ('M', 'a', 'y') => Some(5u8),
        ('J', 'u', 'n') => Some(6u8),
        ('J', 'u', 'l') => Some(7u8),
        ('A', 'u', 'g') => Some(8u8),
        ('S', 'e', 'p') => Some(9u8),
        ('O', 'c', 't') => Some(10u8),
        ('N', 'o', 'v') => Some(11u8),
        ('D', 'e', 'c') => Some(12u8),
        _ => None,
    };
    proof {
        assert forall|m: int| 1 <= m <= 12 && name == month_name(m) implies r == Some(m as u8) by {
            assert(month_name(m)[0] == v@[at as int]);
            assert(month_name(m)[1] == v@[at + 1]);
            assert(month_name(m)[2] == v@[at + 2]);
        }
    }
    r
}

/// Appends the two digits of a number below one hundred.
fn push_two_digits(out: &mut Vec<char>, n: u8)
    requires
        n < 100,
    ensures
        final(out)@ == old(out)@ + two_digits(n as int),
{
    out.push((n / 10 + 48) as char);
    out.push((n % 10 + 48) as char);
    assert(final(out)@ == old(out)@ + two_digits(n as int));
}

/// Appends three letters.
fn push_three(out: &mut Vec<char>, a: char, b: char, c: char)
    ensures
        final(out)@ == old(out)@ + seq![a, b, c],
{
    out.push(a);
    out.push(b);
    out.push(c);
    assert(final(out)@ == old(out)@ + seq![a, b, c]);
}

impl HttpDate {
    /// The date and time of day of the second `secs` after the start of
    /// 1970, or `None` where that lies beyond the year 9999.
    pub fn from_unix(secs: u64) -> (r: Option<HttpDate>)
        ensures
            r matches Some(date) ==> date.is_date_of(secs) && date == HttpDate::of_unix(secs),
            r.is_none() <==> secs / 86400 >= days_before_year(10000),
    {
        let days: u64 = secs / 86400;
        let in_day: u64 = secs % 86400;
        let mut year: u16 = 1970;
        let mut rest: u64 = days;
        while year < 10000 && rest >= year_length(year)
            invariant
                1970 <= year <= 10000,
                days_before_year(year as int) + rest == days,
            decreases 10000 - year,
        {
            rest = rest - year_length(year);
            year = year + 1;
        }
        if year == 10000 {
            return None;
        }
        proof {
            lemma_days_before_year_grows(year as int + 1, 10000);
            lemma_months_make_a_year(year as int);
        }
        let ghost day_of_year = rest;
        let mut month: u8 = 1;
        while rest >= month_length(year, month) as u64
            invariant
                1 <= month <= 12,
                days_before_month(year as int, month as int) + rest == day_of_year,
                day_of_year < days_before_month(year as int, 13),
            decreases 12 - month,
        {
            proof {
                if month == 12 {
                    assert(days_before_month(year as int, 13) == days_before_month(year as int, 12)
                        + days_in_month(year as int, 12));
                }
            }
            rest = rest - month_length(year, month) as u64;
            month = month + 1;
        }
        let date = HttpDate {
            year,
            month,
            day: (rest + 1) as u8,
            hour: (in_day / 3600) as u8,
            minute: (in_day % 3600 / 60) as u8,
            second: (in_day % 60) as u8,
            weekday: ((days + 4) % 7) as u8,
        };
        assert(date.day_number() == days);
        proof {
            lemma_date_is_unique(date, secs);
        }
        Some(date)
    }

    /// Whether this point in time comes before `other`.
    pub fn is_before(&self, other: &HttpDate) -> (r: bool)
        ensures
            r == self.before(*other),
    {
        if self.year != other.year {
            self.year < other.year
        } else if self.month != other.month {
            self.month < other.month
        } else if self.day != other.day {
            self.day < other.day
        } else if self.hour != other.hour {
            self.hour < other.hour
        } else if self.minute != other.minute {
            self.minute < other.minute
        } else {
            self.second < other.second
        }
    }

    /// Appends the day as an HTTP header writes it.
    fn push_day(&self, out: &mut Vec<char>)
        requires
            self.well_formed(),
        ensures
            final(out)@ == old(out)@ + self.day_text(),
    {
        match self.weekday {
            0 => push_three(out, 'S', 'u', 'n'),
            1 => push_three(out, 'M', 'o', 'n'),
            2 => push_three(out, 'T', 'u', 'e'),
            3 => push_three(out, 'W', 'e', 'd'),
            4 => push_three(out, 'T', 'h', 'u'),
            5 => push_three(out, 'F', 'r', 'i'),
            _ => push_three(out, 'S', 'a', 't'),
        }
        assert(out@ == old(out)@ + weekday_name(self.weekday as int));
        out.push(',');
        out.push(' ');
        push_two_digits(out, self.day);
        out.push(' ');
        let ghost head = out@;
        assert(head == old(out)@ + (weekday_name(self.weekday as int) + seq![',', ' ']
            + two_digits(self.day as int) + seq![' ']));
        match self.month {
            1 => push_three(out, 'J', 'a', 'n'),
            2 => push_three(out, 'F', 'e', 'b'),
            3 => push_three(out, 'M', 'a', 'r'),
            4 => push_three(out, 'A', 'p', 'r'),
            5 => push_three(out, 'M', 'a', 'y'),
            6 => push_three(out, 'J', 'u', 'n'),
            7 => push_three(out, 'J', 'u', 'l'),
            8 => push_three(out, 'A', 'u', 'g'),
            9 => push_three(out, 'S', 'e', 'p'),
            10 => push_three(out, 'O', 'c', 't'),
            11 => push_three(out, 'N', 'o', 'v'),
            _ => push_three(out, 'D', 'e', 'c'),
        }
        assert(out@ == head + month_name(self.month as int));
        out.push(' ');
        let ghost middle = out@;
        push_two_digits(out, (self.year / 100) as u8);
        push_two_digits(out, (self.year % 100) as u8);
        assert(out@ == middle + four_digits(self.year as int));
        assert(out@ == old(out)@ + self.day_text());
    }

    /// Appends the time of day as an HTTP header writes it.
    fn push_time(&self, out: &mut Vec<char>)
        requires
            self.well_formed(),
        ensures
            final(out)@ == old(out)@ + self.time_text(),
    {
        push_two_digits(out, self.hour);
        out.push(':');
        push_two_digits(out, self.minute);
        out.push(':');
        push_two_digits(out, self.second);
        assert(out@ == old(out)@ + self.time_text());
    }

    /// Writes the date as an HTTP header has it.
    pub fn format(&self) -> (r: String)
        requires
            self.well_formed(),
        ensures
            r@ == self.text(),
    {
        let mut out: Vec<char> = Vec::new();
        self.push_day(&mut out);
        out.push(' ');
        self.push_time(&mut out);
        out.push(' ');
        out.push('G');
        out.push('M');
        out.push('T');
        assert(out@ == self.text());
        crate::text::string_of(out.as_slice())
    }

    /// Reads a date in the fixed-length format.
    pub fn parse(s: &str) -> (r: Option<HttpDate>)
        ensures
            r == HttpDate::parse_spec(s@),
            r matches Some(date) ==> date.well_formed(),
    {
        let chars = chars_of(s);
        let v = chars.as_slice();
        if v.len() != 29 {
            return None;
        }
        if !(v[3] == ',' && v[4] == ' ' && v[7] == ' ' && v[11] == ' ' && v[16] == ' ' && v[19]
            == ':' && v[22] == ':' && v[25] == ' ' && v[26] == 'G' && v[27] == 'M' && v[28]
            == 'T') {
            assert(v@.subrange(25, 29) == seq![' ', 'G', 'M', 'T'] ==> v@.subrange(25, 29)[0] == ' '
                && v@.subrange(25, 29)[1] == 'G' && v@.subrange(25, 29)[2] == 'M' && v@.subrange(
                25,
                29,
            )[3] == 'T');
            return None;
        }
        assert(v@.subrange(25, 29) == seq![' ', 'G', 'M', 'T']);
        let weekday = read_weekday(v);
        let day = read_digits(v, 5, 2);
        let month = read_month(v, 8);
        let year = read_digits(v, 12, 4);
        let hour = read_digits(v, 17, 2);
        let minute = read_digits(v, 20, 2);
        let second = read_digits(v, 23, 2);
        match (weekday, day, month, year, hour, minute, second) {
            (
                Some(weekday),
                Some(day),
                Some(month),
                Some(year),
                Some(hour),
                Some(minute),
                Some(second),
            ) => {
                if 1 <= day && day <= month_length(year, month) as u16 && hour < 24 && minute < 60
                    && second < 60 {
                    Some(
                        HttpDate {
                            year,
                            month,
                            day: day as u8,
                            hour: hour as u8,
                            minute: minute as u8,
                            second: second as u8,
                            weekday,
                        },
                    )
                } else {
                    None
                }
            },
            _ => None,
        }
    }
}

/// The days before a year grow with the year.
proof fn lemma_days_before_year_grows(a: int, b: int)
    requires
        a <= b,
    ensures
        days_before_year(a) <= days_before_year(b),
    decreases b - a,
{
    if a < b {
        lemma_days_before_year_grows(a, b - 1);
    }
}

/// The days before a month, and the month itself, lie within the year.
proof fn lemma_month_within_year(year: int, month: int)
    requires
        1 <= month <= 12,
    ensures
        0 <= days_before_month(year, month),
        days_before_month(year, month) + days_in_month(year, month) == days_before_month(
            year,
            month + 1,
        ),
        days_before_month(year, month + 1) <= days_in_year(year),
{
    reveal_with_fuel(days_before_month, 14);
}

/// The days before a month grow with the month.
proof fn lemma_days_before_month_grows(year: int, a: int, b: int)
    requires
        1 <= a <= b <= 13,
    ensures
        days_before_month(year, a) <= days_before_month(year, b),
    decreases b - a,
{
    if a < b {
        lemma_days_before_month_grows(year, a, b - 1);
    }
}

/// A date that is earlier in the calendar has the smaller day number.
proof fn lemma_day_number_grows(a: HttpDate, b: HttpDate)
    requires
        a.well_formed(),
        b.well_formed(),
        a.year >= 1970,
        a.year < b.year || (a.year == b.year && (a.month < b.month || (a.month == b.month && a.day
            < b.day))),
    ensures
        a.day_number() < b.day_number(),
{
    lemma_month_within_year(a.year as int, a.month as int);
    lemma_month_within_year(b.year as int, b.month as int);
    if a.year < b.year {
        lemma_days_before_year_grows(a.year + 1, b.year as int);
    } else if a.month < b.month {
        lemma_days_before_month_grows(a.year as int, a.month + 1, b.month as int);
    }
}

/// A number of seconds splits into days and a time of day in one way.
proof fn lemma_split_days(d1: int, t1: int, d2: int, t2: int)
    requires
        0 <= t1 < 86400,
        0 <= t2 < 86400,
        d1 * 86400 + t1 == d2 * 86400 + t2,
    ensures
        d1 == d2,
        t1 == t2,
{
}

/// A time of day splits into hours, minutes and seconds in one way.
proof fn lemma_split_clock(h1: int, m1: int, s1: int, h2: int, m2: int, s2: int)
    requires
        0 <= m1 < 60,
        0 <= s1 < 60,
        0 <= m2 < 60,
        0 <= s2 < 60,
        h1 * 3600 + m1 * 60 + s1 == h2 * 3600 + m2 * 60 + s2,
    ensures
        h1 == h2,
        m1 == m2,
        s1 == s2,
{
}

/// Two dates of the same day number are the same day.
proof fn lemma_same_day(a: HttpDate, b: HttpDate)
    requires
        a.well_formed(),
        b.well_formed(),
        a.year >= 1970,
        b.year >= 1970,
        a.day_number() == b.day_number(),
    ensures
        a.year == b.year,
        a.month == b.month,
        a.day == b.day,
{
    if a.year != b.year || a.month != b.month || a.day != b.day {
        if a.year < b.year || (a.year == b.year && (a.month < b.month || (a.month == b.month
            && a.day < b.day))) {
            lemma_day_number_grows(a, b);
        } else {
            lemma_day_number_grows(b, a);
        }
    }
}

/// Two dates of the same second are the same.
proof fn lemma_same_second(a: HttpDate, b: HttpDate, secs: u64)
    requires
        a.is_date_of(secs),
        b.is_date_of(secs),
    ensures
        a == b,
{
    lemma_split_days(
        a.day_number(),
        a.hour * 3600 + a.minute * 60 + a.second,
        b.day_number(),
        b.hour * 3600 + b.minute * 60 + b.second,
    );
    lemma_split_clock(
        a.hour as int,
        a.minute as int,
        a.second as int,
        b.hour as int,
        b.minute as int,
        b.second as int,
    );
    lemma_same_day(a, b);
}

/// One second has one date.
pub proof fn lemma_date_is_unique(a: HttpDate, secs: u64)
    requires
        a.is_date_of(secs),
    ensures
        HttpDate::of_unix(secs) == a,
{
    let c = HttpDate::of_unix(secs);
    assert(c.is_date_of(secs));
    lemma_same_second(a, c, secs);
}

/// Two digits are read as the number that they were written for.
proof fn lemma_two_digits_read(s: Seq<char>, at: int, n: int)
    requires
        0 <= n < 100,
        0 <= at,
        at + 2 <= s.len(),
        s.subrange(at, at + 2) == two_digits(n),
    ensures
        digits_at(s, at, 2) == Some(n),
{
    reveal_with_fuel(digits_at, 3);
    assert(s[at] == s.subrange(at, at + 2)[0]);
    assert(s[at + 1] == s.subrange(at, at + 2)[1]);
}

/// Four digits are read as the number that they were written for.
proof fn lemma_four_digits_read(s: Seq<char>, at: int, n: int)
    requires
        0 <= n < 10000,
        0 <= at,
        at + 4 <= s.len(),
        s.subrange(at, at + 4) == four_digits(n),
    ensures
        digits_at(s, at, 4) == Some(n),
{
    reveal_with_fuel(digits_at, 5);
    let part = s.subrange(at, at + 4);
    assert(s[at] == part[0]);
    assert(s[at + 1] == part[1]);
    assert(s[at + 2] == part[2]);
    assert(s[at + 3] == part[3]);
    assert(part[0] == two_digits(n / 100)[0]);
    assert(part[1] == two_digits(n / 100)[1]);
    assert(part[2] == two_digits(n % 100)[0]);
    assert(part[3] == two_digits(n % 100)[1]);
}

/// The name of a day of the week is read as that day.
proof fn lemma_weekday_name_read(weekday: int)
    requires
        0 <= weekday < 7,
    ensures
        weekday_of(weekday_name(weekday)) == Some(weekday),
        weekday_name(weekday).len() == 3,
{
    let name = weekday_name(weekday);
    assert forall|other: int| 0 <= other < 7 && other != weekday implies weekday_name(other)
        != name by {
        assert(weekday_name(other)[0] != name[0] || weekday_name(other)[1] != name[1]);
    }
}

/// The name of a month is read as that month.
proof fn lemma_month_name_read(month: int)
    requires
        1 <= month <= 12,
    ensures
        month_of(month_name(month)) == Some(month),
        month_name(month).len() == 3,
{
    let name = month_name(month);
    assert forall|other: int| 1 <= other <= 12 && other != month implies month_name(other)
        != name by {
        assert(month_name(other)[0] != name[0] || month_name(other)[1] != name[1] || month_name(
            other,
        )[2] != name[2]);
    }
}

/// A date is read back from its text: what [`HttpDate::format`] writes,
/// [`HttpDate::parse`] reads as the same date.
pub proof fn lemma_text_is_read_back(date: HttpDate)
    requires
        date.well_formed(),
    ensures
        HttpDate::parse_spec(date.text()) == Some(date),
        date.text().len() == 29,
{
    let s = date.text();
    let day = date.day_text();
    let time = date.time_text();
    lemma_weekday_name_read(date.weekday as int);
    lemma_month_name_read(date.month as int);
    assert(day.len() == 16);
    assert(time.len() == 8);
    assert(s.len() == 29);
    assert(s.subrange(0, 16) == day);
    assert(s.subrange(17, 25) == time);
    assert(s.subrange(25, 29) == seq![' ', 'G', 'M', 'T']);
    assert(s.subrange(0, 3) == day.subrange(0, 3));
    assert(day.subrange(0, 3) == weekday_name(date.weekday as int));
    assert(s.subrange(5, 7) == day.subrange(5, 7));
    assert(day.subrange(5, 7) == two_digits(date.day as int));
    assert(s.subrange(8, 11) == day.subrange(8, 11));
    assert(day.subrange(8, 11) == month_name(date.month as int));
    assert(s.subrange(12, 16) == day.subrange(12, 16));
    assert(day.subrange(12, 16) == four_digits(date.year as int));
    assert(s.subrange(17, 19) == time.subrange(0, 2));
    assert(time.subrange(0, 2) == two_digits(date.hour as int));
    assert(s.subrange(20, 22) == time.subrange(3, 5));
    assert(time.subrange(3, 5) == two_digits(date.minute as int));
    assert(s.subrange(23, 25) == time.subrange(6, 8));
    assert(time.subrange(6, 8) == two_digits(date.second as int));
    assert(s[3] == day[3] && s[4] == day[4] && s[7] == day[7] && s[11] == day[11]);
    assert(s[16] == ' ');
    assert(s[19] == time[2] && s[22] == time[5]);
    lemma_two_digits_read(s, 5, date.day as int);
    lemma_four_digits_read(s, 12, date.year as int);
    lemma_two_digits_read(s, 17, date.hour as int);
    lemma_two_digits_read(s, 20, date.minute as int);
    lemma_two_digits_read(s, 23, date.second as int);
}

/// The order of dates is the order of time: of two dates since 1970, one
/// comes before the other exactly where its second comes first.
pub proof fn lemma_before_is_earlier(a: HttpDate, b: HttpDate)
    requires
        a.well_formed(),
        b.well_formed(),
        a.year >= 1970,
        b.year >= 1970,
    ensures
        a.before(b) <==> a.timestamp() < b.timestamp(),
{
    let ta = a.hour * 3600 + a.minute * 60 + a.second;
    let tb = b.hour * 3600 + b.minute * 60 + b.second;
    assert(0 <= ta < 86400 && 0 <= tb < 86400);
    if a.year != b.year || a.month != b.month || a.day != b.day {
        if a.year < b.year || (a.year == b.year && (a.month < b.month || (a.month == b.month
            && a.day < b.day))) {
            lemma_day_number_grows(a, b);
        } else {
            lemma_day_number_grows(b, a);
        }
    }
}

} // verus!

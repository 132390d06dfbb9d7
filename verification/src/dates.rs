//! Verified calendar dates.
//!
//! Document records carry their reference dates as `YYYY-MM-DD` strings.
//! This module parses and validates them, renders the display formats the
//! documents use, orders them chronologically, and recognises the
//! `DD_MM_YYYY` tokens that invoice file names carry.

use vstd::prelude::*;

verus! {

use vstd::string::StringExecFns;
use crate::numbers::append_four_digits;
use crate::numbers::append_two_digits;
use crate::numbers::digit_val;
use crate::numbers::four_digit_chars;
use crate::numbers::is_digit_char;
use crate::numbers::two_digit_chars;

/// A calendar date, valid per [`Date::wf`].
#[derive(Clone, Copy, Debug, PartialEq, Eq, Structural)]
pub struct Date {
    pub year: u32,
    pub month: u8,
    pub day: u8,
}

/// True for years with a 29-day February.
pub open spec fn is_leap_year(y: int) -> bool {
    y % 4 == 0 && (y % 100 != 0 || y % 400 == 0)
}

/// The number of days in month `m` of year `y`.
pub open spec fn days_in_month(y: int, m: int) -> int {
    if m == 2 {
        if is_leap_year(y) {
            29
        } else {
            28
        }
    } else if m == 4 || m == 6 || m == 9 || m == 11 {
        30
    } else {
        31
    }
}

impl Date {
    /// A well-formed date: a four-digit year and a day that exists in its
    /// month.
    pub open spec fn wf(self) -> bool {
        &&& self.year <= 9999
        &&& 1 <= self.month <= 12
        &&& 1 <= self.day <= days_in_month(self.year as int, self.month as int)
    }

    /// A sort key that orders dates chronologically.
    pub open spec fn key_spec(self) -> int {
        self.year * 10000 + self.month * 100 + self.day
    }

    /// Computes the chronological sort key.
    pub fn key(&self) -> (k: u32)
        requires
            self.wf(),
        ensures
            k == self.key_spec(),
    {
        self.year * 10000 + (self.month as u32) * 100 + (self.day as u32)
    }
}

/// The date denoted by a `YYYY-MM-DD` string: exactly ten characters, three
/// all-digit fields separated by dashes, naming a well-formed date.
/// `None` for any other string.
pub open spec fn parse_date_spec(s: Seq<char>) -> Option<Date> {
    if s.len() == 10 && is_digit_char(s[0]) && is_digit_char(s[1]) && is_digit_char(s[2])
        && is_digit_char(s[3]) && s[4] == '-' && is_digit_char(s[5]) && is_digit_char(s[6]) && s[7]
        == '-' && is_digit_char(s[8]) && is_digit_char(s[9]) {
        let y = digit_val(s[0]) * 1000 + digit_val(s[1]) * 100 + digit_val(s[2]) * 10 + digit_val(
            s[3],
        );
        let m = digit_val(s[5]) * 10 + digit_val(s[6]);
        let d = digit_val(s[8]) * 10 + digit_val(s[9]);
        if 1 <= m <= 12 && 1 <= d <= days_in_month(y, m) {
            Some(Date { year: y as u32, month: m as u8, day: d as u8 })
        } else {
            None
        }
    } else {
        None
    }
}

/// Parses a `YYYY-MM-DD` string into a date.
#[verifier::loop_isolation(false)]
pub fn parse_date(t: &str) -> (r: Option<Date>)
    ensures
        r == parse_date_spec(t@),
        r is Some ==> r.unwrap().wf(),
{
    let n = t.unicode_len();
    if n != 10 {
        return None;
    }
    let mut ds: [u8; 10] = [0; 10];
    let mut i: usize = 0;
    while i < 10
        invariant
            i <= 10,
            forall|k: int|
                0 <= k < i ==> {
                    &&& (k != 4 && k != 7) ==> is_digit_char(t@[k]) && ds@[k] == digit_val(t@[k])
                    &&& (k == 4 || k == 7) ==> t@[k] == '-'
                },
        decreases 10 - i,
    {
        let u = t.get_char(i) as u32;
        if i == 4 || i == 7 {
            if u != 45 {
                proof {
                    assert(t@[i as int] != '-') by {
                        assert('-' as int == 45);
                    }
                }
                return None;
            }
            proof {
                assert(t@[i as int] == '-') by {
                    assert('-' as int == 45);
                }
            }
        } else {
            if !(48 <= u && u <= 57) {
                return None;
            }
            ds[i] = (u - 48) as u8;
        }
        i = i + 1;
    }
    let y = (ds[0] as u32) * 1000 + (ds[1] as u32) * 100 + (ds[2] as u32) * 10 + (ds[3] as u32);
    let m = ds[5] * 10 + ds[6];
    let d = ds[8] * 10 + ds[9];
    if !(1 <= m && m <= 12) {
        return None;
    }
    let dim = days_in_month_exec(y, m);
    if !(1 <= d && d <= dim) {
        return None;
    }
    Some(Date { year: y, month: m, day: d })
}

/// Computes the number of days in month `m` of year `y`.
pub fn days_in_month_exec(y: u32, m: u8) -> (r: u8)
    ensures
        r == days_in_month(y as int, m as int),
{
    if m == 2 {
        if y % 4 == 0 && (y % 100 != 0 || y % 400 == 0) {
            29
        } else {
            28
        }
    } else if m == 4 || m == 6 || m == 9 || m == 11 {
        30
    } else {
        31
    }
}

/// Parses a record's `YYYY-MM-DD` reference date, which the record is
/// required to carry in valid form.
pub fn date_as_value(date: &str) -> (d: Date)
    requires
        parse_date_spec(date@) is Some,
    ensures
        Some(d) == parse_date_spec(date@),
        d.wf(),
{
    parse_date(date).unwrap()
}

/// The `DD/MM/YYYY` rendering of a date.
pub open spec fn date_dmy_chars(d: Date) -> Seq<char> {
    two_digit_chars(d.day as int) + seq!['/'] + two_digit_chars(d.month as int) + seq!['/']
        + four_digit_chars(d.year as int)
}

/// The `DD/MM` rendering of a date.
pub open spec fn date_dm_chars(d: Date) -> Seq<char> {
    two_digit_chars(d.day as int) + seq!['/'] + two_digit_chars(d.month as int)
}

/// The three-letter English abbreviation of month `m`.
pub open spec fn month_abbrev(m: int) -> Seq<char> {
    if m == 1 {
        "Jan"@
    } else if m == 2 {
        "Feb"@
    } else if m == 3 {
        "Mar"@
    } else if m == 4 {
        "Apr"@
    } else if m == 5 {
        "May"@
    } else if m == 6 {
        "Jun"@
    } else if m == 7 {
        "Jul"@
    } else if m == 8 {
        "Aug"@
    } else if m == 9 {
        "Sep"@
    } else if m == 10 {
        "Oct"@
    } else if m == 11 {
        "Nov"@
    } else {
        "Dec"@
    }
}

/// The `DD Mon YYYY` rendering of a date.
pub open spec fn date_dby_chars(d: Date) -> Seq<char> {
    two_digit_chars(d.day as int) + seq![' '] + month_abbrev(d.month as int) + seq![' ']
        + four_digit_chars(d.year as int)
}

/// Renders a date as `DD/MM/YYYY`, the form document headers show.
pub fn format_date_dmy(d: &Date) -> (r: String)
    requires
        d.wf(),
    ensures
        r@ == date_dmy_chars(*d),
{
    let mut s = String::new();
    append_two_digits(&mut s, d.day as u32);
    proof {
        reveal_strlit("/");
    }
    s.append("/");
    append_two_digits(&mut s, d.month as u32);
    s.append("/");
    append_four_digits(&mut s, d.year);
    proof {
        assert(s@ =~= date_dmy_chars(*d));
    }
    s
}

/// Renders a record's `YYYY-MM-DD` reference date as `DD/MM/YYYY`.
pub fn format_invoice_date(date: &str) -> (r: String)
    requires
        parse_date_spec(date@) is Some,
    ensures
        r@ == date_dmy_chars(parse_date_spec(date@).unwrap()),
{
    let d = date_as_value(date);
    format_date_dmy(&d)
}

/// Renders a line's `YYYY-MM-DD` date as `DD/MM`, the short form shown on
/// invoice rows.
pub fn format_line_date(date: &str) -> (r: String)
    requires
        parse_date_spec(date@) is Some,
    ensures
        r@ == date_dm_chars(parse_date_spec(date@).unwrap()),
{
    let d = date_as_value(date);
    let mut s = String::new();
    append_two_digits(&mut s, d.day as u32);
    proof {
        reveal_strlit("/");
    }
    s.append("/");
    append_two_digits(&mut s, d.month as u32);
    proof {
        assert(s@ =~= date_dm_chars(d));
    }
    s
}

/// Appends the abbreviation of month `m` to `s`.
fn append_month_abbrev(s: &mut String, m: u8)
    requires
        1 <= m <= 12,
    ensures
        final(s)@ == old(s)@ + month_abbrev(m as int),
{
    match m {
        1 => s.append("Jan"),
        2 => s.append("Feb"),
        3 => s.append("Mar"),
        4 => s.append("Apr"),
        5 => s.append("May"),
        6 => s.append("Jun"),
        7 => s.append("Jul"),
        8 => s.append("Aug"),
        9 => s.append("Sep"),
        10 => s.append("Oct"),
        11 => s.append("Nov"),
        _ => s.append("Dec"),
    }
}

/// Renders a record's `YYYY-MM-DD` due date as `DD Mon YYYY`, the form the
/// payment block shows.
pub fn format_due_date(date: &str) -> (r: String)
    requires
        parse_date_spec(date@) is Some,
    ensures
        r@ == date_dby_chars(parse_date_spec(date@).unwrap()),
{
    let d = date_as_value(date);
    let mut s = String::new();
    append_two_digits(&mut s, d.day as u32);
    proof {
        reveal_strlit(" ");
    }
    s.append(" ");
    append_month_abbrev(&mut s, d.month);
    s.append(" ");
    append_four_digits(&mut s, d.year);
    proof {
        assert(s@ =~= date_dby_chars(d));
    }
    s
}


/// True when `needle` occurs contiguously in `hay`.
pub open spec fn contains_seq(hay: Seq<char>, needle: Seq<char>) -> bool {
    exists|i: int|
        #![trigger hay.subrange(i, i + needle.len())]
        0 <= i <= hay.len() - needle.len() && hay.subrange(i, i + needle.len()) == needle
}

/// Whether `needle` matches `hay` at character position `i`.
#[verifier::loop_isolation(false)]
fn matches_at(hay: &str, needle: &str, i: usize, n: usize, m: usize) -> (r: bool)
    requires
        n == hay@.len(),
        m == needle@.len(),
        i + m <= n,
    ensures
        r == (hay@.subrange(i as int, i + m) == needle@),
{
    let mut j: usize = 0;
    while j < m
        invariant
            j <= m,
            forall|k: int| 0 <= k < j ==> hay@[i + k] == needle@[k],
        decreases m - j,
    {
        if hay.get_char(i + j) != needle.get_char(j) {
            proof {
                assert(hay@.subrange(i as int, i + m)[j as int] == hay@[i + j]);
            }
            return false;
        }
        j = j + 1;
    }
    proof {
        assert(hay@.subrange(i as int, i + m) =~= needle@);
    }
    true
}

/// Whether `hay` contains `needle`.
#[verifier::loop_isolation(false)]
pub fn contains_str(hay: &str, needle: &str) -> (r: bool)
    ensures
        r == contains_seq(hay@, needle@),
{
    let n = hay.unicode_len();
    let m = needle.unicode_len();
    if m > n {
        return false;
    }
    if m == 0 {
        proof {
            assert(hay@.subrange(0, 0 + needle@.len() as int) =~= needle@);
            assert(contains_seq(hay@, needle@));
        }
        return true;
    }
    let mut i: usize = 0;
    while i <= n - m
        invariant
            i <= n - m + 1,
            forall|ii: int| 0 <= ii < i ==> #[trigger] hay@.subrange(ii, ii + m) != needle@,
        decreases n - m - i + 1,
    {
        if matches_at(hay, needle, i, n, m) {
            return true;
        }
        i = i + 1;
    }
    false
}

/// A word character for the purposes of the file-name date-token boundary
/// rule: a letter, a digit or an underscore.
pub open spec fn is_word_char(c: char) -> bool {
    ||| is_digit_char(c)
    ||| 'a' as int <= c as int <= 'z' as int
    ||| 'A' as int <= c as int <= 'Z' as int
    ||| c == '_'
}

/// Whether the character at position `i` of `t` is a word character.
fn is_word_char_at(t: &str, i: usize) -> (r: bool)
    requires
        i < t@.len(),
    ensures
        r == is_word_char(t@[i as int]),
{
    let u = t.get_char(i) as u32;
    proof {
        assert(t@[i as int] == '_' <==> t@[i as int] as int == 95) by {
            assert('_' as int == 95);
        }
    }
    (48 <= u && u <= 57) || (97 <= u && u <= 122) || (65 <= u && u <= 90) || u == 95
}

/// A `DD_MM_YYYY` date token standing at position `i` of `s`, bounded on
/// both sides by the start or end of the string or a non-word character.
pub open spec fn date_token_at(s: Seq<char>, i: int) -> bool {
    &&& 0 <= i
    &&& i + 10 <= s.len()
    &&& is_digit_char(s[i])
    &&& is_digit_char(s[i + 1])
    &&& s[i + 2] == '_'
    &&& is_digit_char(s[i + 3])
    &&& is_digit_char(s[i + 4])
    &&& s[i + 5] == '_'
    &&& is_digit_char(s[i + 6])
    &&& is_digit_char(s[i + 7])
    &&& is_digit_char(s[i + 8])
    &&& is_digit_char(s[i + 9])
    &&& (i == 0 || !is_word_char(s[i - 1]))
    &&& (i + 10 == s.len() || !is_word_char(s[i + 10]))
}

/// Whether a date token stands at position `i` of `t`.
fn is_date_token_at(t: &str, i: usize, n: usize) -> (r: bool)
    requires
        n == t@.len(),
        i + 10 <= n,
    ensures
        r == date_token_at(t@, i as int),
{
    proof {
        assert(t@[i + 2] == '_' <==> t@[i + 2] as int == 95) by {
            assert('_' as int == 95);
        }
        assert(t@[i + 5] == '_' <==> t@[i + 5] as int == 95) by {
            assert('_' as int == 95);
        }
    }
    crate::numbers::is_digit_at(t, i) && crate::numbers::is_digit_at(t, i + 1) && t.get_char(i + 2)
        as u32 == 95 && crate::numbers::is_digit_at(t, i + 3) && crate::numbers::is_digit_at(
        t,
        i + 4,
    ) && t.get_char(i + 5) as u32 == 95 && crate::numbers::is_digit_at(t, i + 6)
        && crate::numbers::is_digit_at(t, i + 7) && crate::numbers::is_digit_at(t, i + 8)
        && crate::numbers::is_digit_at(t, i + 9) && (i == 0 || !is_word_char_at(t, i - 1)) && (i
        + 10 == n || !is_word_char_at(t, i + 10))
}

/// True when `file` holds a bounded `DD_MM_YYYY` date token that itself
/// contains `month`.
pub open spec fn is_in_month_spec(file: Seq<char>, month: Seq<char>) -> bool {
    exists|i: int| date_token_at(file, i) && contains_seq(file.subrange(i, i + 10), month)
}

/// Whether the file name carries a `DD_MM_YYYY` date token that contains
/// `month` (given as `MM_YYYY`): the rule that selects an invoice
/// spreadsheet for a month.
#[verifier::loop_isolation(false)]
pub fn is_in_month(file_name: &str, month: &str) -> (r: bool)
    ensures
        r == is_in_month_spec(file_name@, month@),
{
    let n = file_name.unicode_len();
    if n < 10 {
        return false;
    }
    let mut i: usize = 0;
    while i <= n - 10
        invariant
            forall|ii: int|
                0 <= ii < i ==> !(date_token_at(file_name@, ii) && contains_seq(
                    file_name@.subrange(ii, ii + 10),
                    month@,
                )),
        decreases n - i,
    {
        if is_date_token_at(file_name, i, n) {
            let window = file_name.substring_char(i, i + 10);
            if contains_str(window, month) {
                return true;
            }
        }
        i = i + 1;
    }
    proof {
        assert(forall|ii: int| i <= ii ==> !date_token_at(file_name@, ii));
    }
    false
}

} // verus!

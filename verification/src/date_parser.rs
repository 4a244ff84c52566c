//! Ledger-style dates: `YYYY`, `YYYY-MM`, `YYYY-MM-DD` and `A..B` ranges.
use vstd::prelude::*;
use crate::numfmt::{
    digit_char, int_to_string_padded, int_zero_padded, lemma_digits_value_nonneg, nat_digits, parse_i32, parse_int, parse_int_exec,
    parse_u32, zero_pad,
};
use crate::text::{contains, contains_str, count_char, lemma_count_char_append, lemma_split_char_count, lemma_split_char_nonempty, opt_view, split_char, split_on_char, split_on_str, split_str};

verus! {

/// Why a date argument was refused.
#[derive(Debug, PartialEq, Eq)]
pub enum DateParseError {
    /// The argument (or the part of a range) that could not be read.
    InvalidDateFormat(String),
}

impl DateParseError {
    /// The error as the command line reports it.
    pub fn message(&self) -> (m: String)
        ensures
            m@ == (match self {
                DateParseError::InvalidDateFormat(s) => "Invalid date format: "@ + s@,
            }),
    {
        match self {
            DateParseError::InvalidDateFormat(s) => {
                let mut m = String::from_str("Invalid date format: ");
                m.append(s.as_str());
                proof { reveal_strlit("Invalid date format: "); }
                m
            },
        }
    }
}

/// The full date that [`parse_date`] makes of `s`, or the text it reports
/// as invalid: a year gives its first of January, a year and month the
/// first of that month (both zero-padded); three `-`-separated parts are
/// taken as they stand; anything else is refused.
pub open spec fn parse_date_spec(s: Seq<char>) -> Result<Seq<char>, Seq<char>> {
    let parts = split_char(s, '-');
    if parts.len() == 1 {
        match parse_i32(parts[0]) {
            Some(y) => Ok(int_zero_padded(y, 4) + "-01-01"@),
            None => Err(s),
        }
    } else if parts.len() == 2 {
        match (parse_i32(parts[0]), parse_u32(parts[1])) {
            (Some(y), Some(m)) => Ok(int_zero_padded(y, 4) + "-"@ + int_zero_padded(m, 2) + "-01"@),
            _ => Err(s),
        }
    } else if parts.len() == 3 {
        Ok(s)
    } else {
        Err(s)
    }
}

/// What chrono makes of a `YYYY-MM-DD` text: `None` where
/// `NaiveDate::parse_from_str(s, "%Y-%m-%d")` refuses it, `Some(None)` where
/// adding one day leaves chrono's date range, and otherwise `Some(Some(t))`
/// with `t` the following day formatted as `%Y-%m-%d`.
pub uninterp spec fn chrono_next_day(s: Seq<char>) -> Option<Option<Seq<char>>>;

/// Parses `s` with chrono as `%Y-%m-%d`, adds one day and formats the result
/// the same way (`NaiveDate::parse_from_str`, `checked_add_signed`,
/// `format`). The contract ties the outcome to the name [`chrono_next_day`];
/// the calendar arithmetic itself is not restated.
#[verifier::external_body]
fn next_day(s: &str) -> (r: Option<Option<String>>)
    ensures
        match r {
            None => chrono_next_day(s@) is None,
            Some(None) => chrono_next_day(s@) == Some(None::<Seq<char>>),
            Some(Some(t)) => chrono_next_day(s@) == Some(Some(t@)),
        },
{
    match chrono::NaiveDate::parse_from_str(s, "%Y-%m-%d") {
        Err(_) => None,
        Ok(date) => Some(
            date.checked_add_signed(chrono::Duration::days(1)).map(|n| n.format("%Y-%m-%d").to_string()),
        ),
    }
}

/// The end (exclusive) of the period that a single date names: the next
/// year, the next month, or the next day.
pub open spec fn period_end(s: Seq<char>) -> Result<Seq<char>, Seq<char>> {
    let parts = split_char(s, '-');
    if parts.len() == 1 {
        Ok(int_zero_padded(parse_i32(parts[0])->0 + 1, 4) + "-01-01"@)
    } else if parts.len() == 2 {
        let y = parse_i32(parts[0])->0;
        let m = parse_u32(parts[1])->0;
        let ny = if m >= 12 { y + 1 } else { y };
        let nm = if m >= 12 { 1 } else { m + 1 };
        Ok(int_zero_padded(ny, 4) + "-"@ + int_zero_padded(nm, 2) + "-01"@)
    } else {
        match chrono_next_day(s) {
            Some(Some(t)) => Ok(t),
            _ => Err(s),
        }
    }
}

/// One side of an `A..B` range: empty means open.
pub open spec fn range_side(s: Seq<char>) -> Result<Option<Seq<char>>, Seq<char>> {
    if s.len() == 0 {
        Ok(None)
    } else {
        match parse_date_spec(s) {
            Ok(d) => Ok(Some(d)),
            Err(e) => Err(e),
        }
    }
}

/// What [`parse_date_range`] gives for `s`: an `A..B` range gives its two
/// sides (either may be open); a single date gives its start and the start
/// of the following period; the error carries the text reported as invalid.
pub open spec fn parse_date_range_spec(s: Seq<char>) -> Result<(Option<Seq<char>>, Option<Seq<char>>), Seq<char>> {
    if contains(s, ".."@) {
        let parts = split_str(s, ".."@);
        if parts.len() != 2 {
            Err(s)
        } else {
            match range_side(parts[0]) {
                Err(e) => Err(e),
                Ok(b) => match range_side(parts[1]) {
                    Err(e) => Err(e),
                    Ok(e) => Ok((b, e)),
                },
            }
        }
    } else {
        match parse_date_spec(s) {
            Err(e) => Err(e),
            Ok(start) => match period_end(s) {
                Ok(end) => Ok((Some(start), Some(end))),
                Err(e) => Err(e),
            },
        }
    }
}

/// Whether [`parse_date_range`] panics on `s`: the year after `i32::MAX`,
/// or a day after the last one chrono can represent.
pub open spec fn date_range_panics(s: Seq<char>) -> bool {
    &&& !contains(s, ".."@)
    &&& parse_date_spec(s) is Ok
    &&& {
        let parts = split_char(s, '-');
        ||| parts.len() == 1 && parse_i32(parts[0]) == Some(i32::MAX as int)
        ||| parts.len() == 2 && parse_i32(parts[0]) == Some(i32::MAX as int)
            && parse_u32(parts[1])->0 >= 12
        ||| parts.len() == 3 && chrono_next_day(s) == Some(None::<Seq<char>>)
    }
}

fn parse_i32_exec(s: &str) -> (r: Option<i64>)
    ensures
        r matches Some(v) ==> parse_i32(s@) == Some(v as int),
        r is None ==> parse_i32(s@) is None,
{
    parse_int_exec(s, true, i32::MIN as i64, i32::MAX as i64)
}

fn parse_u32_exec(s: &str) -> (r: Option<i64>)
    ensures
        r matches Some(v) ==> parse_u32(s@) == Some(v as int),
        r is None ==> parse_u32(s@) is None,
{
    parse_int_exec(s, false, 0, u32::MAX as i64)
}

fn first_of(y: i64, m: i64) -> (d: String)
    ensures
        d@ == int_zero_padded(y as int, 4) + "-"@ + int_zero_padded(m as int, 2) + "-01"@,
{
    let mut d = int_to_string_padded(y, 4);
    d.append("-");
    let mm = int_to_string_padded(m, 2);
    d.append(mm.as_str());
    d.append("-01");
    d
}

fn new_year(y: i64) -> (d: String)
    ensures
        d@ == int_zero_padded(y as int, 4) + "-01-01"@,
{
    let mut d = int_to_string_padded(y, 4);
    d.append("-01-01");
    d
}

/// Parses `YYYY`, `YYYY-MM` or `YYYY-MM-DD` into a full date string.
pub fn parse_date(date_str: &str) -> (r: Result<String, DateParseError>)
    ensures
        r matches Ok(d) ==> parse_date_spec(date_str@) == Ok::<Seq<char>, Seq<char>>(d@),
        r matches Err(DateParseError::InvalidDateFormat(m)) ==> parse_date_spec(date_str@) == Err::<Seq<char>, Seq<char>>(m@),
{
    let parts = split_on_char(date_str, '-');
    proof {
        lemma_split_char_nonempty(date_str@, '-');
    }
    if parts.len() == 1 {
        match parse_i32_exec(parts[0].as_str()) {
            Some(y) => Ok(new_year(y)),
            None => Err(DateParseError::InvalidDateFormat(String::from_str(date_str))),
        }
    } else if parts.len() == 2 {
        let y = parse_i32_exec(parts[0].as_str());
        let m = parse_u32_exec(parts[1].as_str());
        match (y, m) {
            (Some(y), Some(m)) => Ok(first_of(y, m)),
            _ => Err(DateParseError::InvalidDateFormat(String::from_str(date_str))),
        }
    } else if parts.len() == 3 {
        Ok(String::from_str(date_str))
    } else {
        Err(DateParseError::InvalidDateFormat(String::from_str(date_str)))
    }
}

fn range_side_exec(s: &str) -> (r: Result<Option<String>, DateParseError>)
    ensures
        r matches Ok(Some(d)) ==> range_side(s@) == Ok::<Option<Seq<char>>, Seq<char>>(Some(d@)),
        r matches Ok(None) ==> range_side(s@) == Ok::<Option<Seq<char>>, Seq<char>>(None),
        r matches Err(DateParseError::InvalidDateFormat(m)) ==> range_side(s@) == Err::<Option<Seq<char>>, Seq<char>>(m@),
{
    if s.unicode_len() == 0 {
        Ok(None)
    } else {
        match parse_date(s) {
            Ok(d) => Ok(Some(d)),
            Err(e) => Err(e),
        }
    }
}

/// Whether [`parse_date_range`] would panic on `s` (see [`date_range_panics`]).
pub fn date_range_would_panic(s: &str) -> (r: bool)
    ensures
        r == date_range_panics(s@),
{
    if contains_str(s, "..") {
        return false;
    }
    match parse_date(s) {
        Err(_) => false,
        Ok(_) => {
            let parts = split_on_char(s, '-');
            if parts.len() == 1 {
                match parse_i32_exec(parts[0].as_str()) {
                    Some(y) => y == i32::MAX as i64,
                    None => false,
                }
            } else if parts.len() == 2 {
                let y = parse_i32_exec(parts[0].as_str());
                let m = parse_u32_exec(parts[1].as_str());
                match (y, m) {
                    (Some(y), Some(m)) => y == i32::MAX as i64 && m >= 12,
                    _ => false,
                }
            } else if parts.len() == 3 {
                match next_day(s) {
                    Some(None) => true,
                    _ => false,
                }
            } else {
                false
            }
        },
    }
}

/// Parses a date or an `A..B` range into `(begin, end)`; a single date
/// names a period and its end is the start of the next one (exclusive).
pub fn parse_date_range(date_range_str: &str) -> (r: Result<(Option<String>, Option<String>), DateParseError>)
    requires
        !date_range_panics(date_range_str@),
    ensures
        r matches Ok((b, e)) ==> parse_date_range_spec(date_range_str@) == Ok::<(Option<Seq<char>>, Option<Seq<char>>), Seq<char>>(
            (opt_view(b), opt_view(e)),
        ),
        r matches Err(DateParseError::InvalidDateFormat(m)) ==> parse_date_range_spec(date_range_str@) == Err::<(Option<Seq<char>>, Option<Seq<char>>), Seq<char>>(m@),
{
    if contains_str(date_range_str, "..") {
        proof { reveal_strlit(".."); }
        let parts = split_on_str(date_range_str, "..");
        if parts.len() != 2 {
            return Err(DateParseError::InvalidDateFormat(String::from_str(date_range_str)));
        }
        let start = match range_side_exec(parts[0].as_str()) {
            Ok(b) => b,
            Err(e) => return Err(e),
        };
        let end = match range_side_exec(parts[1].as_str()) {
            Ok(e) => e,
            Err(e) => return Err(e),
        };
        return Ok((start, end));
    }
    let start = match parse_date(date_range_str) {
        Ok(d) => d,
        Err(e) => return Err(e),
    };
    let parts = split_on_char(date_range_str, '-');
    if parts.len() == 1 {
        let y = parse_i32_exec(parts[0].as_str()).unwrap();
        Ok((Some(start), Some(new_year(y + 1))))
    } else if parts.len() == 2 {
        let y = parse_i32_exec(parts[0].as_str()).unwrap();
        let m = parse_u32_exec(parts[1].as_str()).unwrap();
        let (ny, nm) = if m >= 12 { (y + 1, 1) } else { (y, m + 1) };
        Ok((Some(start), Some(first_of(ny, nm))))
    } else if parts.len() == 3 {
        match next_day(date_range_str) {
            Some(Some(t)) => Ok((Some(start), Some(t))),
            _ => Err(DateParseError::InvalidDateFormat(String::from_str(date_range_str))),
        }
    } else {
        Err(DateParseError::InvalidDateFormat(String::from_str(date_range_str)))
    }
}

/// [`parse_date_range`] on any input: `None` exactly where it would panic.
pub fn try_parse_date_range(s: &str) -> (r: Option<Result<(Option<String>, Option<String>), DateParseError>>)
    ensures
        r is None <==> date_range_panics(s@),
        r matches Some(Ok((b, e))) ==> parse_date_range_spec(s@) == Ok::<(Option<Seq<char>>, Option<Seq<char>>), Seq<char>>(
            (opt_view(b), opt_view(e)),
        ),
        r matches Some(Err(DateParseError::InvalidDateFormat(m))) ==> parse_date_range_spec(s@) == Err::<(Option<Seq<char>>, Option<Seq<char>>), Seq<char>>(m@),
{
    if date_range_would_panic(s) {
        None
    } else {
        Some(parse_date_range(s))
    }
}


/// No character of `s` is `c` when `c` does not occur in it.
proof fn lemma_no_occurrence(s: Seq<char>, c: char)
    requires
        count_char(s, c) == 0,
    ensures
        forall|i: int| 0 <= i < s.len() ==> s[i] != c,
    decreases s.len(),
{
    if s.len() > 0 {
        lemma_no_occurrence(s.drop_last(), c);
        assert forall|i: int| 0 <= i < s.len() implies s[i] != c by {
            if i < s.len() - 1 {
                assert(s[i] == s.drop_last()[i]);
            }
        }
    }
}

/// The digits of a number and their zero padding hold no `-`.
proof fn lemma_padded_digits_no_dash(n: nat, width: int)
    ensures
        count_char(zero_pad(nat_digits(n), width), '-') == 0,
    decreases n,
{
    let d = nat_digits(n);
    assert(count_char(d, '-') == 0) by {
        reveal_with_fuel(count_char, 2);
        if n >= 10 {
            lemma_padded_digits_no_dash(n / 10, 0);
            assert(zero_pad(nat_digits(n / 10), 0) == nat_digits(n / 10));
            let k = (n % 10) as int;
            assert(digit_char(k) as u32 == k + 48);
            assert(digit_char(k) != '-');
            assert(d.drop_last() =~= nat_digits(n / 10));
            assert(d.last() == digit_char(k));
        } else {
            assert(digit_char(n as int) as u32 == n + 48);
            assert(digit_char(n as int) != '-');
            assert(d =~= seq![digit_char(n as int)]);
            assert(d.drop_last() =~= Seq::<char>::empty());
            assert(d.last() == digit_char(n as int));
        }
    }
    if d.len() < width {
        let z = Seq::new((width - d.len()) as nat, |i: int| '0');
        assert(count_char(z, '-') == 0) by {
            lemma_zeros_no_dash((width - d.len()) as nat);
        }
        lemma_count_char_append(z, d, '-');
    }
}

proof fn lemma_zeros_no_dash(k: nat)
    ensures
        count_char(Seq::new(k, |i: int| '0'), '-') == 0,
    decreases k,
{
    if k > 0 {
        lemma_zeros_no_dash((k - 1) as nat);
        assert(Seq::new(k, |i: int| '0').drop_last() =~= Seq::new((k - 1) as nat, |i: int| '0'));
    }
}

/// A number read from a text without `-` is not negative.
proof fn lemma_parsed_without_dash(t: Seq<char>, signed: bool, min: int, max: int)
    requires
        count_char(t, '-') == 0,
        parse_int(t, signed, min, max) is Some,
    ensures
        parse_int(t, signed, min, max)->0 >= 0,
{
    lemma_no_occurrence(t, '-');
    let rest = if t.len() > 0 && (t[0] == '+' || (t[0] == '-' && signed)) { t.drop_first() } else { t };
    lemma_digits_value_nonneg(rest);
}

/// Every date that [`parse_date`] gives reads back as itself: a full date
/// is a fixed point of parsing.
pub proof fn law_parse_date_fixed_point(s: Seq<char>, r: Seq<char>)
    requires
        parse_date_spec(s) == Ok::<Seq<char>, Seq<char>>(r),
    ensures
        parse_date_spec(r) == Ok::<Seq<char>, Seq<char>>(r),
{
    let parts = split_char(s, '-');
    lemma_split_char_count(s, '-');
    lemma_split_char_count(r, '-');
    reveal_strlit("-01-01");
    reveal_strlit("-");
    reveal_strlit("-01");
    if parts.len() == 1 {
        let y = parse_i32(parts[0])->0;
        assert(count_char(parts[0], '-') == 0);
        lemma_parsed_without_dash(parts[0], true, i32::MIN as int, i32::MAX as int);
        lemma_padded_digits_no_dash(y as nat, 4);
        let a = int_zero_padded(y, 4);
        assert(count_char("-01-01"@, '-') == 2) by {
            reveal_with_fuel(count_char, 7);
            assert("-01-01"@.drop_last() =~= seq!['-', '0', '1', '-', '0']);
            assert("-01-01"@.drop_last().drop_last() =~= seq!['-', '0', '1', '-']);
            assert("-01-01"@.drop_last().drop_last().drop_last() =~= seq!['-', '0', '1']);
            assert(seq!['-', '0', '1'].drop_last() =~= seq!['-', '0']);
            assert(seq!['-', '0'].drop_last() =~= seq!['-']);
            assert(seq!['-'].drop_last() =~= Seq::<char>::empty());
        }
        lemma_count_char_append(a, "-01-01"@, '-');
    } else if parts.len() == 2 {
        let y = parse_i32(parts[0])->0;
        let m = parse_u32(parts[1])->0;
        assert(count_char(parts[0], '-') == 0);
        assert(count_char(parts[1], '-') == 0);
        lemma_parsed_without_dash(parts[0], true, i32::MIN as int, i32::MAX as int);
        lemma_parsed_without_dash(parts[1], false, 0, u32::MAX as int);
        lemma_padded_digits_no_dash(y as nat, 4);
        lemma_padded_digits_no_dash(m as nat, 2);
        let a = int_zero_padded(y, 4);
        let b = int_zero_padded(m, 2);
        assert(count_char("-"@, '-') == 1) by {
            reveal_with_fuel(count_char, 2);
            assert("-"@ =~= seq!['-']);
            assert(seq!['-'].drop_last() =~= Seq::<char>::empty());
        }
        assert(count_char("-01"@, '-') == 1) by {
            reveal_with_fuel(count_char, 4);
            assert("-01"@.drop_last() =~= seq!['-', '0']);
            assert(seq!['-', '0'].drop_last() =~= seq!['-']);
            assert(seq!['-'].drop_last() =~= Seq::<char>::empty());
        }
        lemma_count_char_append(a, "-"@, '-');
        lemma_count_char_append(a + "-"@, b, '-');
        lemma_count_char_append(a + "-"@ + b, "-01"@, '-');
    }
}

} // verus!

//! Decimal integers: rendering (`{}` and `{:0N}`) and parsing
//! (`str::parse` for `i32` / `u32`), stated over `Seq<char>`.
use vstd::prelude::*;
use crate::decimal::{decimal_display, decimal_round_dp, decimal_to_string, normalize, normalized_of, round_dp, Decimal};
use crate::text::{chars_of, find, find_str, lemma_find_from_bounds, push_char};

verus! {

/// The ASCII digit for `d` (`0 <= d < 10`).
pub open spec fn digit_char(d: int) -> char {
    ((d + 48) as u32) as char
}

/// Whether `c` is an ASCII decimal digit.
pub open spec fn is_digit(c: char) -> bool {
    '0' <= c && c <= '9'
}

/// The value of an ASCII digit.
pub open spec fn digit_value(c: char) -> int {
    (c as u32) - 48
}

/// The decimal digits of `n`, most significant first, without leading zeros
/// (`"0"` for zero).
pub open spec fn nat_digits(n: nat) -> Seq<char>
    decreases n,
{
    if n < 10 {
        seq![digit_char(n as int)]
    } else {
        nat_digits(n / 10).push(digit_char((n % 10) as int))
    }
}

/// `s` left-padded with `'0'` to at least `width` characters.
pub open spec fn zero_pad(s: Seq<char>, width: int) -> Seq<char> {
    if s.len() >= width {
        s
    } else {
        Seq::new((width - s.len()) as nat, |i: int| '0') + s
    }
}

/// How `format!("{:0w$}", v)` renders an integer: the sign first, then the
/// digits zero-padded so that sign and digits fill at least `width`.
pub open spec fn int_zero_padded(v: int, width: int) -> Seq<char> {
    if v < 0 {
        seq!['-'] + zero_pad(nat_digits((-v) as nat), width - 1)
    } else {
        zero_pad(nat_digits(v as nat), width)
    }
}

/// The value of a sequence of ASCII digits.
pub open spec fn digits_value(s: Seq<char>) -> int
    decreases s.len(),
{
    if s.len() == 0 {
        0
    } else {
        digits_value(s.drop_last()) * 10 + digit_value(s.last())
    }
}

/// Whether every character of `s` is an ASCII digit.
pub open spec fn all_digits(s: Seq<char>) -> bool {
    forall|i: int| 0 <= i < s.len() ==> is_digit(#[trigger] s[i])
}

/// What `str::parse` gives for an integer type with range `[min, max]`:
/// an optional `+` (or `-` where `signed`), then one or more ASCII digits,
/// with a value in range; `None` for anything else.
pub open spec fn parse_int(s: Seq<char>, signed: bool, min: int, max: int) -> Option<int> {
    let neg = s.len() > 0 && s[0] == '-' && signed;
    let rest = if s.len() > 0 && (s[0] == '+' || (s[0] == '-' && signed)) {
        s.drop_first()
    } else {
        s
    };
    if rest.len() == 0 || !all_digits(rest) {
        None
    } else {
        let v = if neg { -digits_value(rest) } else { digits_value(rest) };
        if min <= v && v <= max {
            Some(v)
        } else {
            None
        }
    }
}

/// `str::parse::<i32>`.
pub open spec fn parse_i32(s: Seq<char>) -> Option<int> {
    parse_int(s, true, i32::MIN as int, i32::MAX as int)
}

/// `str::parse::<u32>`.
pub open spec fn parse_u32(s: Seq<char>) -> Option<int> {
    parse_int(s, false, 0, u32::MAX as int)
}

proof fn lemma_digits_value_prefix(s: Seq<char>, k: int)
    requires
        0 <= k <= s.len(),
        all_digits(s),
    ensures
        0 <= digits_value(s.take(k)) <= digits_value(s),
    decreases s.len() - k,
{
    if k < s.len() {
        lemma_digits_value_prefix(s, k + 1);
        assert(s.take(k + 1).drop_last() == s.take(k));
        assert(s.take(k + 1).last() == s[k]);
        assert(is_digit(s[k]));
    } else {
        assert(s.take(k) == s);
        lemma_digits_value_nonneg(s);
    }
}

pub proof fn lemma_digits_value_nonneg(s: Seq<char>)
    requires
        all_digits(s),
    ensures
        0 <= digits_value(s),
    decreases s.len(),
{
    if s.len() > 0 {
        assert(is_digit(s.last()));
        lemma_digits_value_nonneg(s.drop_last());
    }
}

fn digit_char_exec(d: u64) -> (c: char)
    requires
        d < 10,
    ensures
        c == digit_char(d as int),
{
    let c = ((d as u8) + 48) as char;
    assert(c as u32 == d + 48);
    c
}

proof fn lemma_nat_digits_len(n: nat)
    ensures
        nat_digits(n).len() >= 1,
    decreases n,
{
    if n >= 10 {
        lemma_nat_digits_len(n / 10);
    }
}

fn push_digits(s: &mut String, n: u64)
    ensures
        final(s)@ == old(s)@ + nat_digits(n as nat),
    decreases n,
{
    if n >= 10 {
        push_digits(s, n / 10);
    }
    push_char(s, digit_char_exec(n % 10));
}

/// `n.to_string()` for an unsigned integer.
pub fn u64_to_string(n: u64) -> (s: String)
    ensures
        s@ == nat_digits(n as nat),
{
    let mut s = String::new();
    push_digits(&mut s, n);
    assert(s@ =~= nat_digits(n as nat));
    s
}

fn push_zeros(s: &mut String, k: usize)
    ensures
        final(s)@ == old(s)@ + Seq::new(k as nat, |i: int| '0'),
{
    let mut i: usize = 0;
    let ghost start = s@;
    while i < k
        invariant
            i <= k,
            s@ == start + Seq::new(i as nat, |j: int| '0'),
        decreases k - i,
    {
        push_char(s, '0');
        i = i + 1;
        assert(s@ =~= start + Seq::new(i as nat, |j: int| '0'));
    }
}

/// `format!("{:0width$}", v)` for a signed integer.
pub fn int_to_string_padded(v: i64, width: usize) -> (s: String)
    ensures
        s@ == int_zero_padded(v as int, width as int),
{
    let mag: u64 = if v < 0 {
        if v == i64::MIN { 9223372036854775808u64 } else { (-v) as u64 }
    } else {
        v as u64
    };
    let digits = u64_to_string(mag);
    let mut s = String::new();
    let w: usize = if v < 0 { if width > 0 { width - 1 } else { 0 } } else { width };
    if v < 0 {
        push_char(&mut s, '-');
    }
    let dl = digits.unicode_len();
    if dl < w {
        push_zeros(&mut s, w - dl);
    }
    s.append(digits.as_str());
    proof {
        if v < 0 {
            assert(mag == -(v as int));
        }
    }
    assert(s@ =~= int_zero_padded(v as int, width as int));
    s
}

/// Parses an integer as `str::parse` does for a type with range
/// `[min, max]` (see [`parse_int`]).
pub fn parse_int_exec(s: &str, signed: bool, min: i64, max: i64) -> (r: Option<i64>)
    requires
        i32::MIN <= min <= max <= u32::MAX,
    ensures
        r matches Some(v) ==> parse_int(s@, signed, min as int, max as int) == Some(v as int),
        r is None ==> parse_int(s@, signed, min as int, max as int) is None,
{
    let cs = crate::text::chars_of(s);
    let n = cs.len();
    let mut start: usize = 0;
    let mut neg = false;
    if n > 0 && (cs[0] == '+' || (cs[0] == '-' && signed)) {
        start = 1;
        neg = cs[0] == '-';
    }
    let ghost rest = if n > 0 && (cs@[0] == '+' || (cs@[0] == '-' && signed)) {
        cs@.drop_first()
    } else {
        cs@
    };
    assert(rest == cs@.subrange(start as int, n as int));
    if start >= n {
        return None;
    }
    let mut acc: u64 = 0;
    let mut i: usize = start;
    while i < n
        invariant
            start <= i <= n == cs.len(),
            cs@ == s@,
            neg == (n > 0 && cs@[0] == '-' && signed),
            rest == (if n > 0 && (cs@[0] == '+' || (cs@[0] == '-' && signed)) { cs@.drop_first() } else { cs@ }),
            i32::MIN <= min <= max <= u32::MAX,
            rest == cs@.subrange(start as int, n as int),
            all_digits(cs@.subrange(start as int, i as int)),
            acc == digits_value(cs@.subrange(start as int, i as int)),
            acc <= 4294967299,
        decreases n - i,
    {
        let c = cs[i];
        if !('0' <= c && c <= '9') {
            assert(rest[i - start] == c);
            assert(!is_digit(rest[i - start]));
            assert(!all_digits(rest));
            return None;
        }
        let ghost pre = cs@.subrange(start as int, i as int);
        let ghost nxt = cs@.subrange(start as int, i + 1);
        assert(nxt.drop_last() == pre);
        assert(nxt.last() == c);
        let d = (c as u32 - 48) as u64;
        if acc >= 429496730 {
            // the value already exceeds every bound in range
            proof {
                assert(digits_value(nxt) == acc * 10 + d);
                assert(nxt == rest.take(i + 1 - start));
                if all_digits(rest) {
                    lemma_digits_value_prefix(rest, i + 1 - start);
                }
            }
            return None;
        }
        acc = acc * 10 + d;
        i = i + 1;
    }
    assert(cs@.subrange(start as int, n as int) == rest);
    let v: i64 = if neg { -(acc as i64) } else { acc as i64 };
    if v < min || v > max {
        return None;
    }
    Some(v)
}

// ---------------------------------------------------------------------------
// Amounts with thousands separators
// ---------------------------------------------------------------------------

/// `digits` in groups of three counted from the right, joined by `,`
/// (`"1234567"` gives `"1,234,567"`).
pub open spec fn group_thousands(digits: Seq<char>) -> Seq<char>
    decreases digits.len(),
{
    if digits.len() <= 3 {
        digits
    } else {
        group_thousands(digits.take(digits.len() - 3)) + seq![','] + digits.skip(digits.len() - 3)
    }
}

/// A number as `Display` writes it, rewritten with thousands separators:
/// the integer part (after a leading `-`, which stays in front) grouped by
/// three, then `.` and the fraction (empty when there is no `.`).
pub open spec fn with_separators(text: Seq<char>) -> Seq<char> {
    let int_part = match find(text, "."@) {
        Some(i) => text.take(i),
        None => text,
    };
    let frac_part = match find(text, "."@) {
        Some(i) => text.skip(i + 1),
        None => Seq::empty(),
    };
    let negative = int_part.len() > 0 && int_part[0] == '-';
    let digits = if negative {
        int_part.skip(1)
    } else {
        int_part
    };
    (if negative {
        "-"@
    } else {
        Seq::empty()
    }) + group_thousands(digits) + "."@ + frac_part
}

fn push_range(out: &mut String, cs: &Vec<char>, lo: usize, hi: usize)
    requires
        lo <= hi <= cs.len(),
    ensures
        final(out)@ == old(out)@ + cs@.subrange(lo as int, hi as int),
{
    let mut i: usize = lo;
    while i < hi
        invariant
            lo <= i <= hi <= cs.len(),
            out@ == old(out)@ + cs@.subrange(lo as int, i as int),
        decreases hi - i,
    {
        push_char(out, cs[i]);
        i = i + 1;
        assert(cs@.subrange(lo as int, i as int) =~= cs@.subrange(lo as int, i - 1).push(cs@[i - 1]));
    }
}

/// Groups `digits` by three with `,` (see [`group_thousands`]).
pub fn group_thousands_exec(digits: &Vec<char>) -> (s: String)
    ensures
        s@ == group_thousands(digits@),
{
    let n = digits.len();
    let mut out = String::new();
    if n == 0 {
        assert(digits@ =~= Seq::<char>::empty());
        return out;
    }
    let first: usize = if n % 3 == 0 { 3 } else { n % 3 };
    push_range(&mut out, digits, 0, first);
    assert(digits@.take(first as int) =~= digits@.subrange(0, first as int));
    assert(out@ =~= group_thousands(digits@.take(first as int)));
    let mut i: usize = first;
    while i < n
        invariant
            1 <= first <= i <= n == digits.len(),
            (n - i) % 3 == 0,
            out@ == group_thousands(digits@.take(i as int)),
        decreases n - i,
    {
        let ghost before = out@;
        push_char(&mut out, ',');
        push_range(&mut out, digits, i, i + 3);
        assert(out@ =~= before + seq![','] + digits@.subrange(i as int, i + 3));
        let ghost t = digits@.take(i + 3);
        assert(t.take(t.len() - 3) =~= digits@.take(i as int));
        assert(t.skip(t.len() - 3) =~= digits@.subrange(i as int, i + 3));
        assert(group_thousands(t) == group_thousands(t.take(t.len() - 3)) + seq![','] + t.skip(t.len() - 3));
        i = i + 3;
    }
    assert(digits@.take(n as int) =~= digits@);
    out
}

/// Rewrites a number's text with thousands separators (see
/// [`with_separators`]).
pub fn with_separators_exec(text: &str) -> (s: String)
    ensures
        s@ == with_separators(text@),
{
    let cs = chars_of(text);
    let dot = find_str(text, ".");
    let (int_end, frac_start) = match dot {
        Some(i) => {
            proof {
                lemma_find_from_bounds(text@, "."@, 0);
                reveal_strlit(".");
            }
            (i, i + 1)
        },
        None => (cs.len(), cs.len()),
    };
    let negative = int_end > 0 && cs[0] == '-';
    let digit_start: usize = if negative { 1 } else { 0 };
    let mut digits: Vec<char> = Vec::new();
    let mut i: usize = digit_start;
    while i < int_end
        invariant
            digit_start <= i <= int_end <= cs.len(),
            digits@ == cs@.subrange(digit_start as int, i as int),
        decreases int_end - i,
    {
        digits.push(cs[i]);
        i = i + 1;
        assert(cs@.subrange(digit_start as int, i as int) =~= cs@.subrange(digit_start as int, i - 1).push(cs@[i - 1]));
    }
    let mut out = String::new();
    if negative {
        out.append("-");
    }
    let grouped = group_thousands_exec(&digits);
    out.append(grouped.as_str());
    out.append(".");
    push_range(&mut out, &cs, frac_start, cs.len());
    proof {
        let int_part = cs@.take(int_end as int);
        assert(int_part.len() > 0 ==> int_part[0] == cs@[0]);
        if negative {
            assert(digits@ =~= int_part.skip(1));
        } else {
            assert(digits@ =~= int_part);
        }
        if dot is None {
            assert(int_part =~= text@);
            assert(cs@.subrange(frac_start as int, cs.len() as int) =~= Seq::<char>::empty());
        } else {
            assert(cs@.subrange(frac_start as int, cs.len() as int) =~= text@.skip(frac_start as int));
        }
        reveal_strlit("-");
        assert(out@ =~= with_separators(text@));
    }
    out
}

/// The text of `d` rounded to two places and written with two decimals, as
/// `format!("{:.2}", d.round_dp(2))` gives it.
pub open spec fn fixed2_text(d: Decimal) -> Seq<char> {
    let r = decimal_round_dp(d.mantissa as int, d.scale as int, 2);
    decimal_display(r.0, r.1, Some(2))
}

/// An amount with two decimals and thousands separators (`1,369.80`).
pub fn format_decimal(amount: Decimal) -> (s: String)
    requires
        amount.wf(),
    ensures
        s@ == with_separators(fixed2_text(amount)),
{
    let rounded = round_dp(amount, 2);
    let text = decimal_to_string(rounded, Some(2));
    with_separators_exec(text.as_str())
}

/// `s` shows `amount` without trailing zeros (as `Display` writes the
/// normalized number), then a space and the currency.
pub open spec fn normalized_text(amount: Decimal, currency: Seq<char>, s: Seq<char>) -> bool {
    exists|r: Decimal| normalized_of(r, amount) && s == decimal_display(r.mantissa as int, r.scale as int, None) + " "@ + currency
}

/// An amount without trailing zeros, then its currency (`100 USD`).
pub fn format_normalized(amount: Decimal, currency: &str) -> (s: String)
    requires
        amount.wf(),
    ensures
        normalized_text(amount, currency@, s@),
{
    let n = normalize(amount);
    let mut s = decimal_to_string(n, None);
    s.append(" ");
    s.append(currency);
    assert(normalized_of(n, amount) && s@ == decimal_display(n.mantissa as int, n.scale as int, None) + " "@ + currency@);
    s
}

} // verus!

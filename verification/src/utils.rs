//! Command-line filters: account patterns, `not` / `@payee` arguments and
//! amount filters such as `>100EUR`.
use vstd::prelude::*;
use crate::decimal::{decimal_from_str, parse_decimal, Decimal};
use crate::text::{chars_of, push_char, string_from_range, to_uppercase, unicode_upper, views};

verus! {

/// Why an amount filter was refused.
#[derive(Debug, PartialEq, Eq)]
pub enum UtilsError {
    /// The filter text as given.
    InvalidAmountFilter(String),
}

impl UtilsError {
    /// The error as the command line reports it.
    pub fn message(&self) -> (m: String)
        ensures
            m@ == (match self {
                UtilsError::InvalidAmountFilter(s) => "Invalid amount filter format: "@ + s@,
            }),
    {
        match self {
            UtilsError::InvalidAmountFilter(s) => {
                let mut m = String::from_str("Invalid amount filter format: ");
                m.append(s.as_str());
                m
            },
        }
    }
}

/// Account arguments sorted into included patterns, excluded patterns and
/// payee clauses.
#[derive(Debug, Clone)]
pub struct AccountParams {
    pub account_regexes: Vec<String>,
    pub excluded_account_regexes: Vec<String>,
    pub where_clauses: Vec<String>,
}

/// A parsed amount filter: comparison operator, value and optional currency.
#[derive(Debug, Clone)]
pub struct AmountFilter {
    pub operator: String,
    pub value: Decimal,
    pub currency: Option<String>,
}

// ---------------------------------------------------------------------------
// Account patterns
// ---------------------------------------------------------------------------

/// The characters that `regex::escape` prefixes with a backslash.
pub open spec fn is_meta_character(c: char) -> bool {
    c == '\\' || c == '.' || c == '+' || c == '*' || c == '?' || c == '(' || c == ')' || c == '|'
        || c == '[' || c == ']' || c == '{' || c == '}' || c == '^' || c == '$' || c == '#'
        || c == '&' || c == '-' || c == '~'
}

/// `s` with a backslash before every meta character.
pub open spec fn regex_escape(s: Seq<char>) -> Seq<char>
    decreases s.len(),
{
    if s.len() == 0 {
        Seq::<char>::empty()
    } else if is_meta_character(s.last()) {
        regex_escape(s.drop_last()) + seq!['\\', s.last()]
    } else {
        regex_escape(s.drop_last()).push(s.last())
    }
}

/// Escapes `text` as `regex::escape` does: every character of `text`, each
/// meta character (see [`is_meta_character`]) preceded by a backslash.
fn escape(text: &str) -> (r: String)
    ensures
        r@ == regex_escape(text@),
{
    let cs = chars_of(text);
    let mut r = String::new();
    let mut i: usize = 0;
    while i < cs.len()
        invariant
            i <= cs.len(),
            cs@ == text@,
            r@ == regex_escape(cs@.take(i as int)),
        decreases cs.len() - i,
    {
        let c = cs[i];
        assert(cs@.take(i + 1).drop_last() =~= cs@.take(i as int));
        if c == '\\' || c == '.' || c == '+' || c == '*' || c == '?' || c == '(' || c == ')' || c == '|' || c == '['
            || c == ']' || c == '{' || c == '}' || c == '^' || c == '$' || c == '#' || c == '&' || c == '-' || c == '~' {
            push_char(&mut r, '\\');
        }
        push_char(&mut r, c);
        i = i + 1;
        assert(r@ =~= regex_escape(cs@.take(i as int)));
    }
    assert(cs@.take(cs.len() as int) =~= cs@);
    r
}

/// The regex that an account pattern stands for: `^X$`, `^X` and `X$` keep
/// their anchors and have `X` escaped; any other pattern is a regex as given.
pub open spec fn account_pattern_spec(p: Seq<char>) -> Seq<char> {
    if p.len() >= 2 && p[0] == '^' && p.last() == '$' {
        seq!['^'] + regex_escape(p.subrange(1, p.len() - 1)) + seq!['$']
    } else if p.len() >= 1 && p[0] == '^' {
        seq!['^'] + regex_escape(p.drop_first())
    } else if p.len() >= 1 && p.last() == '$' {
        regex_escape(p.drop_last()) + seq!['$']
    } else {
        p
    }
}

/// Converts an account CLI pattern into the regex used by the query builders.
pub fn parse_account_pattern(pattern: &str) -> (r: String)
    ensures
        r@ == account_pattern_spec(pattern@),
{
    let cs = chars_of(pattern);
    let n = cs.len();
    if n >= 2 && cs[0] == '^' && cs[n - 1] == '$' {
        let exact = string_from_range(&cs, 1, n - 1);
        let mut r = String::from_str("^");
        let e = escape(exact.as_str());
        r.append(e.as_str());
        push_char(&mut r, '$');
        proof { reveal_strlit("^"); }
        assert(r@ =~= account_pattern_spec(pattern@));
        return r;
    }
    if n >= 1 && cs[0] == '^' {
        let rest = string_from_range(&cs, 1, n);
        let mut r = String::from_str("^");
        let e = escape(rest.as_str());
        r.append(e.as_str());
        proof { reveal_strlit("^"); }
        assert(cs@.subrange(1, n as int) == cs@.drop_first());
        assert(r@ =~= account_pattern_spec(pattern@));
        return r;
    }
    if n >= 1 && cs[n - 1] == '$' {
        let rest = string_from_range(&cs, 0, n - 1);
        let mut r = escape(rest.as_str());
        push_char(&mut r, '$');
        assert(cs@.subrange(0, n - 1) == cs@.drop_last());
        assert(r@ =~= account_pattern_spec(pattern@));
        return r;
    }
    String::from_str(pattern)
}

// ---------------------------------------------------------------------------
// Account parameters
// ---------------------------------------------------------------------------

/// The payee clause for an `@payee` argument.
pub open spec fn payee_clause(payee: Seq<char>) -> Seq<char> {
    "description ~ '"@ + payee + "'"@
}

/// Account arguments read left to right as `(included, excluded, payee
/// clauses, excluding)`: `not` switches to excluding; `@payee` adds a payee
/// clause and switches back to including; any other argument is an
/// included or an excluded pattern, as the mode is.
pub open spec fn account_params_spec(args: Seq<Seq<char>>) -> (Seq<Seq<char>>, Seq<Seq<char>>, Seq<Seq<char>>, bool)
    decreases args.len(),
{
    if args.len() == 0 {
        (Seq::empty(), Seq::empty(), Seq::empty(), false)
    } else {
        let (inc, exc, cls, excluding) = account_params_spec(args.drop_last());
        let t = args.last();
        if t == "not"@ {
            (inc, exc, cls, true)
        } else if t.len() > 0 && t[0] == '@' {
            (inc, exc, cls.push(payee_clause(t.drop_first())), false)
        } else if excluding {
            (inc, exc.push(t), cls, true)
        } else {
            (inc.push(t), exc, cls, false)
        }
    }
}

/// The number of arguments other than `not`.
pub open spec fn pattern_count(args: Seq<Seq<char>>) -> nat
    decreases args.len(),
{
    if args.len() == 0 {
        0
    } else {
        pattern_count(args.drop_last()) + if args.last() == "not"@ { 0nat } else { 1nat }
    }
}

/// Every argument but `not` lands in exactly one of the three lists (an
/// included pattern, an excluded pattern or a payee clause); `not` lands in
/// none. Included and excluded patterns are arguments as given, and each
/// payee clause is built from an `@` argument.
#[verifier::spinoff_prover]
#[verifier::rlimit(30)]
pub proof fn law_account_params_partition(args: Seq<Seq<char>>)
    ensures
        ({
            let (inc, exc, cls, _) = account_params_spec(args);
            &&& inc.len() + exc.len() + cls.len() == pattern_count(args)
            &&& forall|i: int| 0 <= i < inc.len() ==> args.contains(#[trigger] inc[i])
            &&& forall|i: int| 0 <= i < exc.len() ==> args.contains(#[trigger] exc[i])
            &&& forall|i: int| 0 <= i < cls.len() ==> exists|j: int|
                0 <= j < args.len() && args[j].len() > 0 && args[j][0] == '@' && #[trigger] cls[i] == payee_clause(
                    args[j].drop_first(),
                )
        }),
    decreases args.len(),
{
    if args.len() > 0 {
        let prev = args.drop_last();
        law_account_params_partition(prev);
        let (inc0, exc0, cls0, _) = account_params_spec(prev);
        let (inc, exc, cls, _) = account_params_spec(args);
        assert forall|i: int| 0 <= i < inc.len() implies args.contains(#[trigger] inc[i]) by {
            if i < inc0.len() {
                assert(inc[i] == inc0[i]);
                let j = choose|j: int| 0 <= j < prev.len() && prev[j] == inc0[i];
                assert(args[j] == prev[j]);
            } else {
                assert(inc[i] == args[args.len() - 1]);
            }
        }
        assert forall|i: int| 0 <= i < exc.len() implies args.contains(#[trigger] exc[i]) by {
            if i < exc0.len() {
                assert(exc[i] == exc0[i]);
                let j = choose|j: int| 0 <= j < prev.len() && prev[j] == exc0[i];
                assert(args[j] == prev[j]);
            } else {
                assert(exc[i] == args[args.len() - 1]);
            }
        }
        assert forall|i: int| 0 <= i < cls.len() implies exists|j: int|
            0 <= j < args.len() && args[j].len() > 0 && args[j][0] == '@' && #[trigger] cls[i] == payee_clause(
                args[j].drop_first(),
            ) by {
            if i < cls0.len() {
                assert(cls[i] == cls0[i]);
                let j = choose|j: int|
                    0 <= j < prev.len() && prev[j].len() > 0 && prev[j][0] == '@' && #[trigger] cls0[i] == payee_clause(
                        prev[j].drop_first(),
                    );
                assert(args[j] == prev[j]);
            } else {
                assert(args[args.len() - 1] == args.last());
            }
        }
    }
}

/// The view of parsed account parameters.
pub open spec fn account_params_view(p: AccountParams) -> (Seq<Seq<char>>, Seq<Seq<char>>, Seq<Seq<char>>) {
    (views(p.account_regexes@), views(p.excluded_account_regexes@), views(p.where_clauses@))
}

/// Parses account arguments into include patterns, excluded patterns and
/// payee filters.
pub fn parse_account_params(account_regex: &[String]) -> (r: AccountParams)
    ensures
        ({
            let (inc, exc, cls, _) = account_params_spec(views(account_regex@));
            account_params_view(r) == (inc, exc, cls)
        }),
{
    let mut account_regexes: Vec<String> = Vec::new();
    let mut excluded_account_regexes: Vec<String> = Vec::new();
    let mut where_clauses: Vec<String> = Vec::new();
    let mut excluding = false;
    let mut i: usize = 0;
    proof { reveal_strlit("not"); }
    while i < account_regex.len()
        invariant
            i <= account_regex.len(),
            account_params_spec(views(account_regex@).take(i as int)) == (
                views(account_regexes@),
                views(excluded_account_regexes@),
                views(where_clauses@),
                excluding,
            ),
        decreases account_regex.len() - i,
    {
        let ghost args = views(account_regex@);
        assert(args.take(i + 1).drop_last() == args.take(i as int));
        let current = &account_regex[i];
        let cs = chars_of(current.as_str());
        let is_not = cs.len() == 3 && cs[0] == 'n' && cs[1] == 'o' && cs[2] == 't';
        assert(is_not == (current@ == "not"@)) by {
            reveal_strlit("not");
            if current@ == "not"@ {
            } else if is_not {
                assert(current@ =~= "not"@);
            }
        }
        if is_not {
            excluding = true;
        } else if cs.len() > 0 && cs[0] == '@' {
            let payee = string_from_range(&cs, 1, cs.len());
            let mut clause = String::from_str("description ~ '");
            clause.append(payee.as_str());
            clause.append("'");
            let ghost before = where_clauses@;
            where_clauses.push(clause);
            assert(cs@.subrange(1, cs@.len() as int) == cs@.drop_first());
            assert(views(where_clauses@) =~= views(before).push(payee_clause(current@.drop_first())));
            excluding = false;
        } else if excluding {
            let ghost before = excluded_account_regexes@;
            excluded_account_regexes.push(current.clone());
            assert(views(excluded_account_regexes@) =~= views(before).push(current@));
        } else {
            let ghost before = account_regexes@;
            account_regexes.push(current.clone());
            assert(views(account_regexes@) =~= views(before).push(current@));
        }
        i = i + 1;
    }
    assert(views(account_regex@).take(account_regex.len() as int) == views(account_regex@));
    AccountParams { account_regexes, excluded_account_regexes, where_clauses }
}

// ---------------------------------------------------------------------------
// Amount filters
// ---------------------------------------------------------------------------

/// A letter as `(?i)[A-Z]` matches it: an ASCII letter, or one of the two
/// characters that fold to one (`ſ` to `s`, the Kelvin sign to `k`).
pub open spec fn currency_letter(c: char) -> bool {
    ||| ('A' <= c && c <= 'Z')
    ||| ('a' <= c && c <= 'z')
    ||| c == '\u{17F}'
    ||| c == '\u{212A}'
}

/// The length of the comparison operator at the start of `s`
/// (`[><]=?|=|!=`).
pub open spec fn op_len(s: Seq<char>) -> int {
    if s.len() > 0 && (s[0] == '>' || s[0] == '<') {
        if s.len() > 1 && s[1] == '=' { 2 } else { 1 }
    } else if s.len() > 0 && s[0] == '=' {
        1
    } else if s.len() > 1 && s[0] == '!' && s[1] == '=' {
        2
    } else {
        0
    }
}

/// A decimal digit as `\d` matches it: a character of the Unicode general
/// category `Nd` (Unicode 16), ASCII `0`-`9` among them.
pub open spec fn is_decimal_digit(c: char) -> bool {
    ('\u{30}' <= c && c <= '\u{39}')
    || ('\u{660}' <= c && c <= '\u{669}')
    || ('\u{6F0}' <= c && c <= '\u{6F9}')
    || ('\u{7C0}' <= c && c <= '\u{7C9}')
    || ('\u{966}' <= c && c <= '\u{96F}')
    || ('\u{9E6}' <= c && c <= '\u{9EF}')
    || ('\u{A66}' <= c && c <= '\u{A6F}')
    || ('\u{AE6}' <= c && c <= '\u{AEF}')
    || ('\u{B66}' <= c && c <= '\u{B6F}')
    || ('\u{BE6}' <= c && c <= '\u{BEF}')
    || ('\u{C66}' <= c && c <= '\u{C6F}')
    || ('\u{CE6}' <= c && c <= '\u{CEF}')
    || ('\u{D66}' <= c && c <= '\u{D6F}')
    || ('\u{DE6}' <= c && c <= '\u{DEF}')
    || ('\u{E50}' <= c && c <= '\u{E59}')
    || ('\u{ED0}' <= c && c <= '\u{ED9}')
    || ('\u{F20}' <= c && c <= '\u{F29}')
    || ('\u{1040}' <= c && c <= '\u{1049}')
    || ('\u{1090}' <= c && c <= '\u{1099}')
    || ('\u{17E0}' <= c && c <= '\u{17E9}')
    || ('\u{1810}' <= c && c <= '\u{1819}')
    || ('\u{1946}' <= c && c <= '\u{194F}')
    || ('\u{19D0}' <= c && c <= '\u{19D9}')
    || ('\u{1A80}' <= c && c <= '\u{1A89}')
    || ('\u{1A90}' <= c && c <= '\u{1A99}')
    || ('\u{1B50}' <= c && c <= '\u{1B59}')
    || ('\u{1BB0}' <= c && c <= '\u{1BB9}')
    || ('\u{1C40}' <= c && c <= '\u{1C49}')
    || ('\u{1C50}' <= c && c <= '\u{1C59}')
    || ('\u{A620}' <= c && c <= '\u{A629}')
    || ('\u{A8D0}' <= c && c <= '\u{A8D9}')
    || ('\u{A900}' <= c && c <= '\u{A909}')
    || ('\u{A9D0}' <= c && c <= '\u{A9D9}')
    || ('\u{A9F0}' <= c && c <= '\u{A9F9}')
    || ('\u{AA50}' <= c && c <= '\u{AA59}')
    || ('\u{ABF0}' <= c && c <= '\u{ABF9}')
    || ('\u{FF10}' <= c && c <= '\u{FF19}')
    || ('\u{104A0}' <= c && c <= '\u{104A9}')
    || ('\u{10D30}' <= c && c <= '\u{10D39}')
    || ('\u{10D40}' <= c && c <= '\u{10D49}')
    || ('\u{11066}' <= c && c <= '\u{1106F}')
    || ('\u{110F0}' <= c && c <= '\u{110F9}')
    || ('\u{11136}' <= c && c <= '\u{1113F}')
    || ('\u{111D0}' <= c && c <= '\u{111D9}')
    || ('\u{112F0}' <= c && c <= '\u{112F9}')
    || ('\u{11450}' <= c && c <= '\u{11459}')
    || ('\u{114D0}' <= c && c <= '\u{114D9}')
    || ('\u{11650}' <= c && c <= '\u{11659}')
    || ('\u{116C0}' <= c && c <= '\u{116C9}')
    || ('\u{116D0}' <= c && c <= '\u{116E3}')
    || ('\u{11730}' <= c && c <= '\u{11739}')
    || ('\u{118E0}' <= c && c <= '\u{118E9}')
    || ('\u{11950}' <= c && c <= '\u{11959}')
    || ('\u{11BF0}' <= c && c <= '\u{11BF9}')
    || ('\u{11C50}' <= c && c <= '\u{11C59}')
    || ('\u{11D50}' <= c && c <= '\u{11D59}')
    || ('\u{11DA0}' <= c && c <= '\u{11DA9}')
    || ('\u{11F50}' <= c && c <= '\u{11F59}')
    || ('\u{16130}' <= c && c <= '\u{16139}')
    || ('\u{16A60}' <= c && c <= '\u{16A69}')
    || ('\u{16AC0}' <= c && c <= '\u{16AC9}')
    || ('\u{16B50}' <= c && c <= '\u{16B59}')
    || ('\u{16D70}' <= c && c <= '\u{16D79}')
    || ('\u{1CCF0}' <= c && c <= '\u{1CCF9}')
    || ('\u{1D7CE}' <= c && c <= '\u{1D7FF}')
    || ('\u{1E140}' <= c && c <= '\u{1E149}')
    || ('\u{1E2F0}' <= c && c <= '\u{1E2F9}')
    || ('\u{1E4F0}' <= c && c <= '\u{1E4F9}')
    || ('\u{1E5F1}' <= c && c <= '\u{1E5FA}')
    || ('\u{1E950}' <= c && c <= '\u{1E959}')
    || ('\u{1FBF0}' <= c && c <= '\u{1FBF9}')
}

fn is_decimal_digit_exec(c: char) -> (r: bool)
    ensures
        r == is_decimal_digit(c),
{
    ('\u{30}' <= c && c <= '\u{39}')
        || ('\u{660}' <= c && c <= '\u{669}')
        || ('\u{6F0}' <= c && c <= '\u{6F9}')
        || ('\u{7C0}' <= c && c <= '\u{7C9}')
        || ('\u{966}' <= c && c <= '\u{96F}')
        || ('\u{9E6}' <= c && c <= '\u{9EF}')
        || ('\u{A66}' <= c && c <= '\u{A6F}')
        || ('\u{AE6}' <= c && c <= '\u{AEF}')
        || ('\u{B66}' <= c && c <= '\u{B6F}')
        || ('\u{BE6}' <= c && c <= '\u{BEF}')
        || ('\u{C66}' <= c && c <= '\u{C6F}')
        || ('\u{CE6}' <= c && c <= '\u{CEF}')
        || ('\u{D66}' <= c && c <= '\u{D6F}')
        || ('\u{DE6}' <= c && c <= '\u{DEF}')
        || ('\u{E50}' <= c && c <= '\u{E59}')
        || ('\u{ED0}' <= c && c <= '\u{ED9}')
        || ('\u{F20}' <= c && c <= '\u{F29}')
        || ('\u{1040}' <= c && c <= '\u{1049}')
        || ('\u{1090}' <= c && c <= '\u{1099}')
        || ('\u{17E0}' <= c && c <= '\u{17E9}')
        || ('\u{1810}' <= c && c <= '\u{1819}')
        || ('\u{1946}' <= c && c <= '\u{194F}')
        || ('\u{19D0}' <= c && c <= '\u{19D9}')
        || ('\u{1A80}' <= c && c <= '\u{1A89}')
        || ('\u{1A90}' <= c && c <= '\u{1A99}')
        || ('\u{1B50}' <= c && c <= '\u{1B59}')
        || ('\u{1BB0}' <= c && c <= '\u{1BB9}')
        || ('\u{1C40}' <= c && c <= '\u{1C49}')
        || ('\u{1C50}' <= c && c <= '\u{1C59}')
        || ('\u{A620}' <= c && c <= '\u{A629}')
        || ('\u{A8D0}' <= c && c <= '\u{A8D9}')
        || ('\u{A900}' <= c && c <= '\u{A909}')
        || ('\u{A9D0}' <= c && c <= '\u{A9D9}')
        || ('\u{A9F0}' <= c && c <= '\u{A9F9}')
        || ('\u{AA50}' <= c && c <= '\u{AA59}')
        || ('\u{ABF0}' <= c && c <= '\u{ABF9}')
        || ('\u{FF10}' <= c && c <= '\u{FF19}')
        || ('\u{104A0}' <= c && c <= '\u{104A9}')
        || ('\u{10D30}' <= c && c <= '\u{10D39}')
        || ('\u{10D40}' <= c && c <= '\u{10D49}')
        || ('\u{11066}' <= c && c <= '\u{1106F}')
        || ('\u{110F0}' <= c && c <= '\u{110F9}')
        || ('\u{11136}' <= c && c <= '\u{1113F}')
        || ('\u{111D0}' <= c && c <= '\u{111D9}')
        || ('\u{112F0}' <= c && c <= '\u{112F9}')
        || ('\u{11450}' <= c && c <= '\u{11459}')
        || ('\u{114D0}' <= c && c <= '\u{114D9}')
        || ('\u{11650}' <= c && c <= '\u{11659}')
        || ('\u{116C0}' <= c && c <= '\u{116C9}')
        || ('\u{116D0}' <= c && c <= '\u{116E3}')
        || ('\u{11730}' <= c && c <= '\u{11739}')
        || ('\u{118E0}' <= c && c <= '\u{118E9}')
        || ('\u{11950}' <= c && c <= '\u{11959}')
        || ('\u{11BF0}' <= c && c <= '\u{11BF9}')
        || ('\u{11C50}' <= c && c <= '\u{11C59}')
        || ('\u{11D50}' <= c && c <= '\u{11D59}')
        || ('\u{11DA0}' <= c && c <= '\u{11DA9}')
        || ('\u{11F50}' <= c && c <= '\u{11F59}')
        || ('\u{16130}' <= c && c <= '\u{16139}')
        || ('\u{16A60}' <= c && c <= '\u{16A69}')
        || ('\u{16AC0}' <= c && c <= '\u{16AC9}')
        || ('\u{16B50}' <= c && c <= '\u{16B59}')
        || ('\u{16D70}' <= c && c <= '\u{16D79}')
        || ('\u{1CCF0}' <= c && c <= '\u{1CCF9}')
        || ('\u{1D7CE}' <= c && c <= '\u{1D7FF}')
        || ('\u{1E140}' <= c && c <= '\u{1E149}')
        || ('\u{1E2F0}' <= c && c <= '\u{1E2F9}')
        || ('\u{1E4F0}' <= c && c <= '\u{1E4F9}')
        || ('\u{1E5F1}' <= c && c <= '\u{1E5FA}')
        || ('\u{1E950}' <= c && c <= '\u{1E959}')
        || ('\u{1FBF0}' <= c && c <= '\u{1FBF9}')
}

/// The number of consecutive decimal digits of `s` from position `i`.
pub open spec fn digit_run(s: Seq<char>, i: int) -> int
    decreases s.len() - i,
{
    if 0 <= i < s.len() && is_decimal_digit(s[i]) {
        1 + digit_run(s, i + 1)
    } else {
        0
    }
}

/// The length of the number (`-?\d+\.?\d*`) at position `i` of `s`.
pub open spec fn number_len(s: Seq<char>, i: int) -> Option<int> {
    let neg = if 0 <= i < s.len() && s[i] == '-' { 1int } else { 0int };
    let d1 = digit_run(s, i + neg);
    if d1 == 0 {
        None
    } else {
        let j = i + neg + d1;
        let dot = if j < s.len() && s[j] == '.' { 1int } else { 0int };
        Some(neg + d1 + dot + digit_run(s, j + dot))
    }
}

/// The groups that `^([><]=?|=|!=)?(-?\d+\.?\d*)([A-Z]{3})?` (case-insensitive)
/// captures at the start of `s`: operator, number and currency.
pub open spec fn amount_captures(s: Seq<char>) -> Option<(Option<Seq<char>>, Seq<char>, Option<Seq<char>>)> {
    let ol = op_len(s);
    match number_len(s, ol) {
        None => None,
        Some(nl) => {
            let k = ol + nl;
            let cur = if currency_at(s, k) {
                Some(s.subrange(k, k + 3))
            } else {
                None
            };
            Some((if ol > 0 { Some(s.take(ol)) } else { None }, s.subrange(ol, ol + nl), cur))
        },
    }
}

/// What [`parse_amount_filter`] gives: the operator (`=` when none is
/// written), the number as `rust_decimal` reads it, and the currency
/// upper-cased; `None` where the filter is refused.
pub open spec fn amount_filter_spec(s: Seq<char>) -> Option<(Seq<char>, (int, int), Option<Seq<char>>)> {
    match amount_captures(s) {
        None => None,
        Some((op, num, cur)) => match decimal_from_str(num) {
            None => None,
            Some(v) => Some((
                match op { Some(o) => o, None => "="@ },
                v,
                match cur { Some(c) => Some(unicode_upper(c)), None => None },
            )),
        },
    }
}

/// The view of a parsed amount filter.
pub open spec fn amount_filter_view(f: AmountFilter) -> (Seq<char>, (int, int), Option<Seq<char>>) {
    (f.operator@, (f.value.mantissa as int, f.value.scale as int), match f.currency {
        Some(c) => Some(c@),
        None => None,
    })
}

fn digit_run_exec(cs: &Vec<char>, i: usize) -> (n: usize)
    requires
        i <= cs.len(),
    ensures
        n == digit_run(cs@, i as int),
        i + n <= cs.len(),
{
    let mut j: usize = cs.len();
    // find the end of the run, then count back to relate it to the spec
    let mut k: usize = i;
    while k < cs.len() && is_decimal_digit_exec(cs[k])
        invariant
            i <= k <= cs.len(),
            forall|m: int| i <= m < k ==> is_decimal_digit(#[trigger] cs@[m]),
        decreases cs.len() - k,
    {
        k = k + 1;
    }
    j = k;
    let mut m: usize = k;
    assert(digit_run(cs@, k as int) == 0);
    while m > i
        invariant
            i <= m <= k <= cs.len(),
            forall|x: int| i <= x < k ==> is_decimal_digit(#[trigger] cs@[x]),
            digit_run(cs@, m as int) == k - m,
        decreases m - i,
    {
        m = m - 1;
        assert(is_decimal_digit(cs@[m as int]));
    }
    j - i
}

/// Whether three ASCII letters follow position `k` of `s`.
pub open spec fn currency_at(s: Seq<char>, k: int) -> bool {
    k + 3 <= s.len() && currency_letter(s[k]) && currency_letter(s[k + 1]) && currency_letter(s[k + 2])
}

fn currency_letter_exec(c: char) -> (r: bool)
    ensures
        r == currency_letter(c),
{
    ('A' <= c && c <= 'Z') || ('a' <= c && c <= 'z') || c == '\u{17F}' || c == '\u{212A}'
}

#[verifier::spinoff_prover]
#[verifier::rlimit(40)]
/// Matches the amount-filter pattern: the end of the operator, the end of
/// the number, and whether a currency follows.
fn match_amount(cs: &Vec<char>) -> (r: Option<(usize, usize, bool)>)
    ensures
        r is None <==> number_len(cs@, op_len(cs@)) is None,
        r matches Some((ol, k, cur)) ==> {
            &&& ol == op_len(cs@)
            &&& number_len(cs@, ol as int) == Some(k - ol)
            &&& ol <= k <= cs.len()
            &&& cur == currency_at(cs@, k as int)
        },
{
    let n = cs.len();
    let ol: usize = if n > 0 && (cs[0] == '>' || cs[0] == '<') {
        if n > 1 && cs[1] == '=' { 2 } else { 1 }
    } else if n > 0 && cs[0] == '=' {
        1
    } else if n > 1 && cs[0] == '!' && cs[1] == '=' {
        2
    } else {
        0
    };
    let neg: usize = if ol < n && cs[ol] == '-' { 1 } else { 0 };
    let d1 = digit_run_exec(cs, ol + neg);
    if d1 == 0 {
        return None;
    }
    let j = ol + neg + d1;
    let dot: usize = if j < n && cs[j] == '.' { 1 } else { 0 };
    let d2 = digit_run_exec(cs, j + dot);
    let k = j + dot + d2;
    let cur = n >= 3 && k <= n - 3 && currency_letter_exec(cs[k]) && currency_letter_exec(cs[k + 1])
        && currency_letter_exec(cs[k + 2]);
    Some((ol, k, cur))
}

/// Parses an amount filter like `>100EUR` into operator, value and
/// optional currency.
pub fn parse_amount_filter(amount_str: &str) -> (r: Result<AmountFilter, UtilsError>)
    ensures
        r matches Ok(f) ==> amount_filter_spec(amount_str@) == Some(amount_filter_view(f)) && f.value.wf(),
        r matches Err(UtilsError::InvalidAmountFilter(m)) ==> amount_filter_spec(amount_str@) is None && m@ == amount_str@,
{
    let cs = chars_of(amount_str);
    let (ol, k, cur) = match match_amount(&cs) {
        Some(x) => x,
        None => return Err(UtilsError::InvalidAmountFilter(String::from_str(amount_str))),
    };
    let number = string_from_range(&cs, ol, k);
    let value = match parse_decimal(number.as_str()) {
        Some(v) => v,
        None => return Err(UtilsError::InvalidAmountFilter(String::from_str(amount_str))),
    };
    let operator = if ol > 0 { string_from_range(&cs, 0, ol) } else { String::from_str("=") };
    let currency = if cur {
        let c = string_from_range(&cs, k, k + 3);
        Some(to_uppercase(c.as_str()))
    } else {
        None
    };
    proof {
        assert(cs@.take(ol as int) == cs@.subrange(0, ol as int));
    }
    let f = AmountFilter { operator, value, currency };
    assert(amount_filter_view(f) == amount_filter_spec(amount_str@)->0);
    Ok(f)
}

} // verus!

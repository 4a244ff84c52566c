//! Pieces of BQL queries shared by the commands: account, date, currency
//! and amount clauses, sort terms and limits.
use vstd::prelude::*;
use crate::date_parser::{date_range_panics, parse_date, parse_date_range, parse_date_range_spec, parse_date_spec};
use crate::decimal::{decimal_display, decimal_to_string};
use crate::numfmt::{nat_digits, u64_to_string};
use crate::text::{join, join_strings, split_char, split_on_char, to_uppercase, trim, trim_str, unicode_upper, views};
use crate::utils::{
    account_params_spec, account_pattern_spec, amount_filter_spec, parse_account_params, parse_account_pattern,
    parse_amount_filter,
};

verus! {

/// Appends every string of `items` to `out`.
pub fn push_all(out: &mut Vec<String>, items: &Vec<String>)
    ensures
        views(final(out)@) == views(old(out)@) + views(items@),
{
    let ghost start = out@;
    let mut i: usize = 0;
    while i < items.len()
        invariant
            i <= items.len(),
            views(out@) == views(start) + views(items@).take(i as int),
        decreases items.len() - i,
    {
        let ghost before = out@;
        out.push(items[i].clone());
        i = i + 1;
        assert(views(out@) =~= views(before).push(items@[i - 1]@));
        assert(views(items@).take(i as int) =~= views(items@).take(i - 1).push(items@[i - 1]@));
    }
    assert(views(items@).take(items.len() as int) =~= views(items@));
}

/// `prefix + x + suffix` as a new string.
pub fn wrap(prefix: &str, x: &str, suffix: &str) -> (s: String)
    ensures
        s@ == prefix@ + x@ + suffix@,
{
    let mut s = String::from_str(prefix);
    s.append(x);
    s.append(suffix);
    s
}

// ---------------------------------------------------------------------------
// Account clauses
// ---------------------------------------------------------------------------

/// `account ~ '<regex>'` for an included pattern.
pub open spec fn include_clause(p: Seq<char>) -> Seq<char> {
    "account ~ '"@ + account_pattern_spec(p) + "'"@
}

/// `NOT (account ~ '<regex>')` for an excluded pattern.
pub open spec fn exclude_clause(p: Seq<char>) -> Seq<char> {
    "NOT (account ~ '"@ + account_pattern_spec(p) + "')"@
}

/// The clauses that account arguments give: payee clauses, then included
/// patterns, then excluded ones.
pub open spec fn account_clauses(args: Seq<Seq<char>>) -> Seq<Seq<char>> {
    let (inc, exc, cls, _) = account_params_spec(args);
    cls + inc.map_values(|p: Seq<char>| include_clause(p)) + exc.map_values(|p: Seq<char>| exclude_clause(p))
}

fn push_pattern_clauses(out: &mut Vec<String>, pats: &Vec<String>, inclusive: bool)
    ensures
        views(final(out)@) == views(old(out)@) + (if inclusive {
            views(pats@).map_values(|p: Seq<char>| include_clause(p))
        } else {
            views(pats@).map_values(|p: Seq<char>| exclude_clause(p))
        }),
{
    let ghost start = out@;
    let ghost f = if inclusive {
        |p: Seq<char>| include_clause(p)
    } else {
        |p: Seq<char>| exclude_clause(p)
    };
    let mut i: usize = 0;
    while i < pats.len()
        invariant
            i <= pats.len(),
            f == (if inclusive { |p: Seq<char>| include_clause(p) } else { |p: Seq<char>| exclude_clause(p) }),
            views(out@) == views(start) + views(pats@).take(i as int).map_values(f),
        decreases pats.len() - i,
    {
        let regex = parse_account_pattern(pats[i].as_str());
        let clause = if inclusive {
            wrap("account ~ '", regex.as_str(), "'")
        } else {
            wrap("NOT (account ~ '", regex.as_str(), "')")
        };
        let ghost before = out@;
        out.push(clause);
        i = i + 1;
        assert(views(pats@).take(i as int) =~= views(pats@).take(i - 1).push(pats@[i - 1]@));
        assert(views(out@) =~= views(before).push(f(pats@[i - 1]@)));
        assert(views(pats@).take(i as int).map_values(f) =~= views(pats@).take(i - 1).map_values(f).push(f(pats@[i - 1]@)));
    }
    assert(views(pats@).take(pats.len() as int) =~= views(pats@));
}

/// Appends the clauses for account arguments (see [`account_clauses`]).
pub fn push_account_clauses(out: &mut Vec<String>, args: &Vec<String>)
    ensures
        views(final(out)@) == views(old(out)@) + account_clauses(views(args@)),
{
    let params = parse_account_params(args.as_slice());
    let ghost start = out@;
    push_all(out, &params.where_clauses);
    push_pattern_clauses(out, &params.account_regexes, true);
    push_pattern_clauses(out, &params.excluded_account_regexes, false);
    assert(views(out@) =~= views(start) + account_clauses(views(args@)));
}

// ---------------------------------------------------------------------------
// Date clauses
// ---------------------------------------------------------------------------

/// `date >= date("<d>")`.
pub open spec fn ge_clause(d: Seq<char>) -> Seq<char> {
    "date >= date(\""@ + d + "\")"@
}

/// `date < date("<d>")`.
pub open spec fn lt_clause(d: Seq<char>) -> Seq<char> {
    "date < date(\""@ + d + "\")"@
}

/// The clause for an optional bound, lower (`ge`) or upper.
pub open spec fn bound_clauses(d: Option<Seq<char>>, ge: bool) -> Seq<Seq<char>> {
    match d {
        Some(x) => seq![if ge { ge_clause(x) } else { lt_clause(x) }],
        None => Seq::empty(),
    }
}

/// The clauses for `--begin`, `--end` and `--date-range`; a value that does
/// not parse gives no clause.
pub open spec fn date_clauses(begin: Option<Seq<char>>, end: Option<Seq<char>>, range: Option<Seq<char>>) -> Seq<Seq<char>> {
    (match begin {
        Some(b) => match parse_date_spec(b) {
            Ok(d) => seq![ge_clause(d)],
            Err(_) => Seq::empty(),
        },
        None => Seq::empty(),
    }) + (match end {
        Some(e) => match parse_date_spec(e) {
            Ok(d) => seq![lt_clause(d)],
            Err(_) => Seq::empty(),
        },
        None => Seq::empty(),
    }) + (match range {
        Some(r) => match parse_date_range_spec(r) {
            Ok((b, e)) => bound_clauses(b, true) + bound_clauses(e, false),
            Err(_) => Seq::empty(),
        },
        None => Seq::empty(),
    })
}

/// The date range argument is one on which range parsing does not panic.
pub open spec fn range_ok(range: Option<Seq<char>>) -> bool {
    match range {
        Some(r) => !date_range_panics(r),
        None => true,
    }
}

fn ge_exec(d: &str) -> (s: String)
    ensures
        s@ == ge_clause(d@),
{
    wrap("date >= date(\"", d, "\")")
}

fn lt_exec(d: &str) -> (s: String)
    ensures
        s@ == lt_clause(d@),
{
    wrap("date < date(\"", d, "\")")
}

/// Appends the date clauses (see [`date_clauses`]).
pub fn push_date_clauses(out: &mut Vec<String>, begin: &Option<String>, end: &Option<String>, range: &Option<String>)
    requires
        range_ok(opt_view_ref(range)),
    ensures
        views(final(out)@) == views(old(out)@) + date_clauses(opt_view_ref(begin), opt_view_ref(end), opt_view_ref(range)),
{
    let ghost start = out@;
    if let Some(b) = begin {
        if let Ok(date) = parse_date(b.as_str()) {
            out.push(ge_exec(date.as_str()));
        }
    }
    if let Some(e) = end {
        if let Ok(date) = parse_date(e.as_str()) {
            out.push(lt_exec(date.as_str()));
        }
    }
    if let Some(r) = range {
        if let Ok((b, e)) = parse_date_range(r.as_str()) {
            if let Some(b) = b {
                out.push(ge_exec(b.as_str()));
            }
            if let Some(e) = e {
                out.push(lt_exec(e.as_str()));
            }
        }
    }
    assert(views(out@) =~= views(start) + date_clauses(opt_view_ref(begin), opt_view_ref(end), opt_view_ref(range)));
}

/// The character view of an optional string.
pub open spec fn opt_view_ref(o: &Option<String>) -> Option<Seq<char>> {
    match o {
        Some(s) => Some(s@),
        None => None,
    }
}

// ---------------------------------------------------------------------------
// Currency lists
// ---------------------------------------------------------------------------

/// The non-empty elements of `s`, in order.
pub open spec fn nonempty(s: Seq<Seq<char>>) -> Seq<Seq<char>>
    decreases s.len(),
{
    if s.len() == 0 {
        Seq::empty()
    } else if s.last().len() == 0 {
        nonempty(s.drop_last())
    } else {
        nonempty(s.drop_last()).push(s.last())
    }
}

/// One comma-separated currency, trimmed and (where `upper`) upper-cased.
pub open spec fn currency_item(s: Seq<char>, upper: bool) -> Seq<char> {
    if upper {
        unicode_upper(trim(s))
    } else {
        trim(s)
    }
}

/// The currencies in one `--currency` argument.
pub open spec fn currency_items(c: Seq<char>, upper: bool) -> Seq<Seq<char>> {
    nonempty(split_char(c, ',').map_values(|s: Seq<char>| currency_item(s, upper)))
}

/// The currencies of all `--currency` arguments, in order.
pub open spec fn currency_list(args: Seq<Seq<char>>, upper: bool) -> Seq<Seq<char>>
    decreases args.len(),
{
    if args.len() == 0 {
        Seq::empty()
    } else {
        currency_list(args.drop_last(), upper) + currency_items(args.last(), upper)
    }
}

fn push_currency_items(out: &mut Vec<String>, c: &str, upper: bool)
    ensures
        views(final(out)@) == views(old(out)@) + currency_items(c@, upper),
{
    let parts = split_on_char(c, ',');
    let ghost mapped = split_char(c@, ',').map_values(|s: Seq<char>| currency_item(s, upper));
    let ghost start = out@;
    let mut i: usize = 0;
    while i < parts.len()
        invariant
            i <= parts.len(),
            views(parts@) == split_char(c@, ','),
            mapped == split_char(c@, ',').map_values(|s: Seq<char>| currency_item(s, upper)),
            views(out@) == views(start) + nonempty(mapped.take(i as int)),
        decreases parts.len() - i,
    {
        let t = trim_str(parts[i].as_str());
        let item = if upper { to_uppercase(t.as_str()) } else { t };
        assert(item@ == mapped[i as int]);
        assert(mapped.take(i + 1).drop_last() =~= mapped.take(i as int));
        if item.unicode_len() != 0 {
            let ghost before = out@;
            out.push(item);
            assert(views(out@) =~= views(before).push(mapped[i as int]));
        }
        i = i + 1;
    }
    assert(mapped.take(parts.len() as int) =~= mapped);
}

/// The currencies named by `--currency` arguments: split at commas,
/// trimmed, upper-cased where `upper`, empty ones dropped.
pub fn currency_list_exec(args: &Vec<String>, upper: bool) -> (r: Vec<String>)
    ensures
        views(r@) == currency_list(views(args@), upper),
{
    let mut r: Vec<String> = Vec::new();
    let mut i: usize = 0;
    while i < args.len()
        invariant
            i <= args.len(),
            views(r@) == currency_list(views(args@).take(i as int), upper),
        decreases args.len() - i,
    {
        assert(views(args@).take(i + 1).drop_last() =~= views(args@).take(i as int));
        push_currency_items(&mut r, args[i].as_str(), upper);
        i = i + 1;
    }
    assert(views(args@).take(args.len() as int) =~= views(args@));
    r
}

// ---------------------------------------------------------------------------
// Amount clauses
// ---------------------------------------------------------------------------

/// The clause for one parsed amount filter, with the BQL names of the
/// number and currency fields.
pub open spec fn amount_clause(
    f: (Seq<char>, (int, int), Option<Seq<char>>),
    num_field: Seq<char>,
    cur_field: Seq<char>,
) -> Seq<char> {
    num_field + " "@ + f.0 + " "@ + decimal_display(f.1.0, f.1.1, None) + match f.2 {
        Some(c) => " AND "@ + cur_field + " = '"@ + c + "'"@,
        None => Seq::empty(),
    }
}

/// The clauses for `--amount` arguments; a filter that does not parse
/// gives no clause.
pub open spec fn amount_clauses(args: Seq<Seq<char>>, num_field: Seq<char>, cur_field: Seq<char>) -> Seq<Seq<char>>
    decreases args.len(),
{
    if args.len() == 0 {
        Seq::empty()
    } else {
        let rest = amount_clauses(args.drop_last(), num_field, cur_field);
        match amount_filter_spec(args.last()) {
            Some(f) => rest.push(amount_clause(f, num_field, cur_field)),
            None => rest,
        }
    }
}

/// Appends the clauses for `--amount` arguments (see [`amount_clauses`]).
pub fn push_amount_clauses(out: &mut Vec<String>, args: &Vec<String>, num_field: &str, cur_field: &str)
    ensures
        views(final(out)@) == views(old(out)@) + amount_clauses(views(args@), num_field@, cur_field@),
{
    let ghost start = out@;
    let mut i: usize = 0;
    while i < args.len()
        invariant
            i <= args.len(),
            views(out@) == views(start) + amount_clauses(views(args@).take(i as int), num_field@, cur_field@),
        decreases args.len() - i,
    {
        assert(views(args@).take(i + 1).drop_last() =~= views(args@).take(i as int));
        let parsed = parse_amount_filter(args[i].as_str());
        if let Ok(filter) = parsed {
            let mut clause = String::from_str(num_field);
            clause.append(" ");
            clause.append(filter.operator.as_str());
            clause.append(" ");
            let v = decimal_to_string(filter.value, None);
            clause.append(v.as_str());
            if let Some(c) = &filter.currency {
                clause.append(" AND ");
                clause.append(cur_field);
                clause.append(" = '");
                clause.append(c.as_str());
                clause.append("'");
            }
            assert(clause@ =~= amount_clause(crate::utils::amount_filter_view(filter), num_field@, cur_field@));
            let ghost before = out@;
            out.push(clause);
            assert(views(out@) =~= views(before).push(out@.last()@));
        } else {
            match parsed {
                Err(crate::utils::UtilsError::InvalidAmountFilter(_)) => {},
                Ok(_) => {},
            }
        }
        i = i + 1;
    }
    assert(views(args@).take(args.len() as int) =~= views(args@));
}

// ---------------------------------------------------------------------------
// Sorting and limits
// ---------------------------------------------------------------------------

/// How a command renames sort fields.
#[derive(Clone, Copy, Debug, PartialEq, Eq)]
pub enum SortNames {
    /// Fields as given.
    Plain,
    /// `balance` is `sum(position)`.
    Balance,
    /// `balance` is `amount`.
    Assert,
    /// `symbol` is `currency`; `price` and `amount` are `amount`.
    Price,
}

/// The BQL field that a sort name stands for.
pub open spec fn sort_name(kind: SortNames, name: Seq<char>) -> Seq<char> {
    match kind {
        SortNames::Plain => name,
        SortNames::Balance => if name == "balance"@ { "sum(position)"@ } else { name },
        SortNames::Assert => if name == "balance"@ { "amount"@ } else { name },
        SortNames::Price => if name == "symbol"@ {
            "currency"@
        } else if name == "price"@ || name == "amount"@ {
            "amount"@
        } else {
            name
        },
    }
}

/// One sort term: the trimmed field, `DESC` when it starts with `-`
/// (which is dropped), `ASC` otherwise.
pub open spec fn sort_term(field: Seq<char>, kind: SortNames) -> Seq<char> {
    let f = trim(field);
    if f.len() > 0 && f[0] == '-' {
        sort_name(kind, f.drop_first()) + " DESC"@
    } else {
        sort_name(kind, f) + " ASC"@
    }
}

/// The `ORDER BY` list for a comma-separated sort argument.
pub open spec fn order_by(sort: Seq<char>, kind: SortNames) -> Seq<char> {
    join(split_char(sort, ',').map_values(|f: Seq<char>| sort_term(f, kind)), ", "@)
}

fn str_eq(a: &str, b: &str) -> (r: bool)
    ensures
        r == (a@ == b@),
{
    let x = crate::text::chars_of(a);
    let y = crate::text::chars_of(b);
    if x.len() != y.len() {
        return false;
    }
    let mut i: usize = 0;
    while i < x.len()
        invariant
            x.len() == y.len(),
            x@ == a@,
            y@ == b@,
            i <= x.len(),
            forall|k: int| 0 <= k < i ==> x@[k] == y@[k],
        decreases x.len() - i,
    {
        if x[i] != y[i] {
            return false;
        }
        i = i + 1;
    }
    assert(x@ =~= y@);
    true
}

/// Whether two strings hold the same characters.
pub fn same_text(a: &str, b: &str) -> (r: bool)
    ensures
        r == (a@ == b@),
{
    str_eq(a, b)
}

fn sort_name_exec(kind: SortNames, name: &str) -> (r: String)
    ensures
        r@ == sort_name(kind, name@),
{
    match kind {
        SortNames::Plain => String::from_str(name),
        SortNames::Balance => if str_eq(name, "balance") {
            String::from_str("sum(position)")
        } else {
            String::from_str(name)
        },
        SortNames::Assert => if str_eq(name, "balance") {
            String::from_str("amount")
        } else {
            String::from_str(name)
        },
        SortNames::Price => if str_eq(name, "symbol") {
            String::from_str("currency")
        } else if str_eq(name, "price") || str_eq(name, "amount") {
            String::from_str("amount")
        } else {
            String::from_str(name)
        },
    }
}

fn sort_term_exec(field: &str, kind: SortNames) -> (r: String)
    ensures
        r@ == sort_term(field@, kind),
{
    let f = trim_str(field);
    let cs = crate::text::chars_of(f.as_str());
    if cs.len() > 0 && cs[0] == '-' {
        let name = crate::text::string_from_range(&cs, 1, cs.len());
        assert(cs@.subrange(1, cs@.len() as int) =~= cs@.drop_first());
        let mut r = sort_name_exec(kind, name.as_str());
        r.append(" DESC");
        r
    } else {
        let mut r = sort_name_exec(kind, f.as_str());
        r.append(" ASC");
        r
    }
}

/// The `ORDER BY` list for a sort argument (see [`order_by`]).
pub fn order_by_exec(sort: &str, kind: SortNames) -> (r: String)
    ensures
        r@ == order_by(sort@, kind),
{
    let fields = split_on_char(sort, ',');
    let mut terms: Vec<String> = Vec::new();
    let mut i: usize = 0;
    let ghost f = |x: Seq<char>| sort_term(x, kind);
    while i < fields.len()
        invariant
            i <= fields.len(),
            f == (|x: Seq<char>| sort_term(x, kind)),
            views(terms@) == views(fields@).take(i as int).map_values(f),
        decreases fields.len() - i,
    {
        let t = sort_term_exec(fields[i].as_str(), kind);
        let ghost before = terms@;
        terms.push(t);
        assert(views(terms@) =~= views(before).push(sort_term(fields@[i as int]@, kind)));
        i = i + 1;
        assert(views(fields@).take(i as int) =~= views(fields@).take(i - 1).push(fields@[i - 1]@));
        assert(views(terms@) =~= views(fields@).take(i as int).map_values(f));
    }
    assert(views(fields@).take(fields.len() as int) =~= views(fields@));
    join_strings(&terms, ", ")
}

/// ` LIMIT <n>`.
pub open spec fn limit_clause(limit: Option<usize>) -> Seq<char> {
    match limit {
        Some(n) => " LIMIT "@ + nat_digits(n as nat),
        None => Seq::empty(),
    }
}

/// Appends ` LIMIT <n>` when a limit is given.
pub fn push_limit(q: &mut String, limit: Option<usize>)
    ensures
        final(q)@ == old(q)@ + limit_clause(limit),
{
    if let Some(n) = limit {
        q.append(" LIMIT ");
        let d = u64_to_string(n as u64);
        q.append(d.as_str());
    } else {
        assert(old(q)@ + limit_clause(limit) =~= old(q)@);
    }
}

/// ` WHERE c1 AND c2 ...`, or nothing when there are no clauses.
pub open spec fn where_part(clauses: Seq<Seq<char>>) -> Seq<char> {
    if clauses.len() == 0 {
        Seq::empty()
    } else {
        " WHERE "@ + join(clauses, " AND "@)
    }
}

/// Appends the `WHERE` part for the clauses.
pub fn push_where(q: &mut String, clauses: &Vec<String>)
    ensures
        final(q)@ == old(q)@ + where_part(views(clauses@)),
{
    if clauses.len() > 0 {
        q.append(" WHERE ");
        let j = join_strings(clauses, " AND ");
        q.append(j.as_str());
    } else {
        assert(old(q)@ + where_part(views(clauses@)) =~= old(q)@);
    }
}

/// `currency = 'C'` for one currency, `(currency = 'A' OR currency = 'B' ...)`
/// for several, nothing for none.
pub open spec fn currency_eq_clauses(cs: Seq<Seq<char>>) -> Seq<Seq<char>> {
    if cs.len() == 1 {
        seq!["currency = '"@ + cs[0] + "'"@]
    } else if cs.len() > 1 {
        seq!["("@ + join(cs.map_values(|c: Seq<char>| "currency = '"@ + c + "'"@), " OR "@) + ")"@]
    } else {
        Seq::empty()
    }
}

/// Wraps each string as `prefix + s + suffix`.
pub fn wrap_each(items: &Vec<String>, prefix: &str, suffix: &str) -> (r: Vec<String>)
    ensures
        views(r@) == views(items@).map_values(|c: Seq<char>| prefix@ + c + suffix@),
{
    let mut r: Vec<String> = Vec::new();
    let mut i: usize = 0;
    while i < items.len()
        invariant
            i <= items.len(),
            views(r@) == views(items@).take(i as int).map_values(|c: Seq<char>| prefix@ + c + suffix@),
        decreases items.len() - i,
    {
        let w = wrap(prefix, items[i].as_str(), suffix);
        let ghost before = r@;
        r.push(w);
        assert(views(r@) =~= views(before).push(prefix@ + items@[i as int]@ + suffix@));
        i = i + 1;
        assert(views(items@).take(i as int) =~= views(items@).take(i - 1).push(items@[i - 1]@));
        assert(views(r@) =~= views(items@).take(i as int).map_values(|c: Seq<char>| prefix@ + c + suffix@));
    }
    assert(views(items@).take(items.len() as int) =~= views(items@));
    r
}

/// Appends the currency clause (see [`currency_eq_clauses`]).
pub fn push_currency_eq_clauses(out: &mut Vec<String>, cs: &Vec<String>)
    ensures
        views(final(out)@) == views(old(out)@) + currency_eq_clauses(views(cs@)),
{
    let ghost start = out@;
    if cs.len() == 1 {
        out.push(wrap("currency = '", cs[0].as_str(), "'"));
    } else if cs.len() > 1 {
        let conds = wrap_each(cs, "currency = '", "'");
        let joined = join_strings(&conds, " OR ");
        out.push(wrap("(", joined.as_str(), ")"));
    }
    assert(views(out@) =~= views(start) + currency_eq_clauses(views(cs@)));
}

} // verus!

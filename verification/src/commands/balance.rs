//! `bal`: account balances.
use vstd::prelude::*;
use crate::bql::{
    account_clauses, currency_eq_clauses, currency_list, currency_list_exec, date_clauses, limit_clause, order_by,
    order_by_exec, push_account_clauses, push_currency_eq_clauses, push_date_clauses, push_limit, push_where,
    range_ok, same_text, where_part, opt_view_ref, SortNames,
};
use crate::cli::CommonOptions;
use crate::decimal::{dec_eq, dec_lt, equals, less_than, pow10, Decimal};
use crate::json::{field, index, Json};
use crate::numfmt::{fixed2_text, format_decimal, with_separators};
use crate::report::{cells_view, Table};
use crate::rows::{
    decimal_of, lemma_map_results_err_extends, lemma_map_results_step, map_results, need_decimal, need_decimal_exec, need_str,
    need_str_exec,
};
use crate::sums::{
    add_event, add_named_events, add_positions, lemma_brought_append, amounts_wf, lemma_sums_of_defined, lemma_sums_of_empty,
    lemma_sums_undefined_extends, brought_to, copy_positions, events_defined, grouped, groups_view,
    groups_wf, key_set, keys_of, lemma_events_undefined_extends, lookup_name, named_events,
    strictly_sorted, sums_defined, sums_of, zero_dec, NameSums,
};
use crate::utils::{amount_filter_spec, amount_filter_view, parse_amount_filter, AmountFilter, UtilsError};
use crate::text::{count_char, count_char_str, lemma_count_char_join, lemma_split_char_count, join, join_strings, split_char, split_on_char, to_uppercase, unicode_upper, views};

verus! {

/// The `SELECT` part: balances, and converted balances with `--exchange`.
pub open spec fn balance_select(exchange: Option<Seq<char>>) -> Seq<char> {
    match exchange {
        Some(x) => "SELECT account, units(sum(position)) as Balance, sum(convert(position, '"@ + unicode_upper(x)
            + "')) as Converted"@,
        None => "SELECT account, units(sum(position)) as Balance"@,
    }
}

/// The `WHERE` clauses of the balance query.
pub open spec fn balance_where(opts: &CommonOptions) -> Seq<Seq<char>> {
    account_clauses(views(opts.account@)) + date_clauses(opt_view_ref(&opts.begin), opt_view_ref(&opts.end), opt_view_ref(&opts.date_range))
        + currency_eq_clauses(currency_list(views(opts.currency@), true))
}

/// The sort argument, `account` by default.
pub open spec fn balance_sort(opts: &CommonOptions) -> Seq<char> {
    match opts.sort {
        Some(s) => s@,
        None => "account"@,
    }
}

/// The balance query: grouped by account, ordered (by account unless
/// `--sort` says otherwise), optionally limited.
pub open spec fn balance_query(opts: &CommonOptions) -> Seq<char> {
    balance_select(opt_view_ref(&opts.exchange)) + where_part(balance_where(opts)) + " GROUP BY account"@
        + " ORDER BY "@ + order_by(balance_sort(opts), SortNames::Balance) + limit_clause(opts.limit)
}

/// Builds the BQL query for account balances.
pub fn build_query(opts: &CommonOptions) -> (q: String)
    requires
        range_ok(opt_view_ref(&opts.date_range)),
    ensures
        q@ == balance_query(opts),
{
    let mut where_clauses: Vec<String> = Vec::new();
    push_account_clauses(&mut where_clauses, &opts.account);
    push_date_clauses(&mut where_clauses, &opts.begin, &opts.end, &opts.date_range);
    let currencies = currency_list_exec(&opts.currency, true);
    push_currency_eq_clauses(&mut where_clauses, &currencies);
    let mut query = match &opts.exchange {
        Some(exchange) => {
            let exchange_upper = to_uppercase(exchange.as_str());
            let mut s = String::from_str("SELECT account, units(sum(position)) as Balance, sum(convert(position, '");
            s.append(exchange_upper.as_str());
            s.append("')) as Converted");
            s
        },
        None => String::from_str("SELECT account, units(sum(position)) as Balance"),
    };
    push_where(&mut query, &where_clauses);
    query.append(" GROUP BY account");
    query.append(" ORDER BY ");
    let sort = match &opts.sort {
        Some(s) => order_by_exec(s.as_str(), SortNames::Balance),
        None => order_by_exec("account", SortNames::Balance),
    };
    query.append(sort.as_str());
    push_limit(&mut query, opts.limit);
    assert(views(where_clauses@) =~= balance_where(opts));
    assert(query@ =~= balance_query(opts));
    query
}

// ---------------------------------------------------------------------------
// Rows
// ---------------------------------------------------------------------------

/// An amount in one currency.
#[derive(Debug, Clone)]
pub struct Position {
    pub currency: String,
    pub amount: Decimal,
}

/// One account's balance, and its converted balance with `--exchange`.
#[derive(Debug, Clone)]
pub struct BalanceRow {
    pub account: String,
    pub positions: Vec<Position>,
    pub converted_positions: Option<Vec<Position>>,
}

/// The grand total of a balance report.
#[derive(Debug, Clone)]
pub struct BalanceTotals {
    pub positions: Vec<Position>,
    pub converted_positions: Option<Vec<Position>>,
}

/// A position as `(currency, amount)`.
pub open spec fn pos_view(p: Position) -> (Seq<char>, Decimal) {
    (p.currency@, p.amount)
}

/// Positions as `(currency, amount)` pairs.
pub open spec fn positions_view(ps: Seq<Position>) -> Seq<(Seq<char>, Decimal)> {
    ps.map_values(|p: Position| pos_view(p))
}

/// Optional positions as `(currency, amount)` pairs.
pub open spec fn opt_positions_view(ps: Option<Vec<Position>>) -> Option<Seq<(Seq<char>, Decimal)>> {
    match ps {
        Some(v) => Some(positions_view(v@)),
        None => None,
    }
}

/// A balance row as `(account, positions, converted positions)`.
pub open spec fn row_view(r: BalanceRow) -> (Seq<char>, Seq<(Seq<char>, Decimal)>, Option<Seq<(Seq<char>, Decimal)>>) {
    (r.account@, positions_view(r.positions@), opt_positions_view(r.converted_positions))
}

/// Balance rows as views.
pub open spec fn rows_view(rs: Seq<BalanceRow>) -> Seq<(Seq<char>, Seq<(Seq<char>, Decimal)>, Option<Seq<(Seq<char>, Decimal)>>)> {
    rs.map_values(|r: BalanceRow| row_view(r))
}

/// One inventory position: its currency and its decimal number.
pub open spec fn position_spec(pos: Json) -> Result<(Seq<char>, Decimal), Seq<char>> {
    match need_str(pos, "currency"@, "missing currency in position"@) {
        Err(e) => Err(e),
        Ok(c) => match need_str(pos, "number"@, "missing number in position"@) {
            Err(e) => Err(e),
            Ok(n) => match need_decimal(n, "invalid decimal: "@) {
                Err(e) => Err(e),
                Ok(d) => Ok((c, d)),
            },
        },
    }
}

/// [`position_spec`] as a function value.
pub open spec fn position_fn() -> spec_fn(Json) -> Result<(Seq<char>, Decimal), Seq<char>> {
    |p: Json| position_spec(p)
}

/// [`balance_row_spec`] as a function value.
pub open spec fn balance_row_fn() -> spec_fn(Json) -> Result<
    (Seq<char>, Seq<(Seq<char>, Decimal)>, Option<Seq<(Seq<char>, Decimal)>>),
    Seq<char>,
> {
    |j: Json| balance_row_spec(j)
}

/// The positions of an inventory value (`{"positions": [...]}`).
pub open spec fn inventory_spec(inv: Json, label: Seq<char>) -> Result<Seq<(Seq<char>, Decimal)>, Seq<char>> {
    match index(inv, "positions"@) {
        Json::Array(items) => map_results(items@, position_fn()),
        _ => Err("missing positions array in "@ + label),
    }
}

/// One balance row: the account, the `Balance` inventory and, when the
/// row has one, the `Converted` inventory.
pub open spec fn balance_row_spec(row: Json) -> Result<
    (Seq<char>, Seq<(Seq<char>, Decimal)>, Option<Seq<(Seq<char>, Decimal)>>),
    Seq<char>,
> {
    match need_str(row, "account"@, "missing account field"@) {
        Err(e) => Err(e),
        Ok(a) => match inventory_spec(index(row, "Balance"@), "Balance"@) {
            Err(e) => Err(e),
            Ok(ps) => match field(row, "Converted"@) {
                None => Ok((a, ps, None)),
                Some(c) => match inventory_spec(c, "Converted"@) {
                    Err(e) => Err(e),
                    Ok(cs) => Ok((a, ps, Some(cs))),
                },
            },
        },
    }
}

fn parse_position(pos: &Json) -> (r: Result<Position, String>)
    ensures
        match r {
            Ok(p) => position_spec(*pos) == Ok::<(Seq<char>, Decimal), Seq<char>>(pos_view(p)) && p.amount.wf(),
            Err(e) => position_spec(*pos) == Err::<(Seq<char>, Decimal), Seq<char>>(e@),
        },
{
    let currency = need_str_exec(pos, "currency", "missing currency in position")?;
    let number = need_str_exec(pos, "number", "missing number in position")?;
    let amount = need_decimal_exec(number.as_str(), "invalid decimal: ")?;
    Ok(Position { currency, amount })
}

/// Reads the positions of an inventory value.
pub fn parse_inventory_positions(inventory: &Json, label: &str) -> (r: Result<Vec<Position>, String>)
    ensures
        match r {
            Ok(ps) => inventory_spec(*inventory, label@) == Ok::<Seq<(Seq<char>, Decimal)>, Seq<char>>(positions_view(ps@))
                && forall|i: int| 0 <= i < ps@.len() ==> (#[trigger] ps@[i]).amount.wf(),
            Err(e) => inventory_spec(*inventory, label@) == Err::<Seq<(Seq<char>, Decimal)>, Seq<char>>(e@),
        },
{
    let null = Json::Null;
    let arr = match inventory.get("positions") {
        Some(v) => v,
        None => &null,
    };
    let items = match arr.as_array() {
        Some(items) => items,
        None => {
            let mut e = String::from_str("missing positions array in ");
            e.append(label);
            return Err(e);
        },
    };
    let ghost f = position_fn();
    assert(items@.take(0) =~= Seq::<Json>::empty());
    assert(inventory_spec(*inventory, label@) == map_results(items@, f));
    let mut out: Vec<Position> = Vec::new();
    assert(positions_view(out@) =~= Seq::empty());
    let mut i: usize = 0;
    while i < items.len()
        invariant
            i <= items.len(),
            f == position_fn(),
            inventory_spec(*inventory, label@) == map_results(items@, f),
            map_results(items@.take(i as int), f) == Ok::<Seq<(Seq<char>, Decimal)>, Seq<char>>(positions_view(out@)),
            forall|k: int| 0 <= k < out@.len() ==> (#[trigger] out@[k]).amount.wf(),
        decreases items.len() - i,
    {
        proof {
            lemma_map_results_step(items@, f, i as int, positions_view(out@));
        }
        match parse_position(&items[i]) {
            Ok(p) => {
                let ghost before = out@;
                out.push(p);
                assert(positions_view(out@) =~= positions_view(before).push(pos_view(p)));
            },
            Err(e) => {
                proof {
                    lemma_map_results_err_extends(items@, f, i + 1, e@);
                }
                return Err(e);
            },
        }
        i = i + 1;
    }
    assert(items@.take(items.len() as int) =~= items@);
    Ok(out)
}

/// Reads balance rows from query results.
pub fn parse_rows(json_rows: &Vec<Json>) -> (r: Result<Vec<BalanceRow>, String>)
    ensures
        match r {
            Ok(rows) => map_results(json_rows@, balance_row_fn()) == Ok::<
                Seq<(Seq<char>, Seq<(Seq<char>, Decimal)>, Option<Seq<(Seq<char>, Decimal)>>)>,
                Seq<char>,
            >(rows_view(rows@)) && forall|i: int| 0 <= i < rows@.len() ==> row_wf(#[trigger] rows@[i]),
            Err(e) => map_results(json_rows@, balance_row_fn()) == Err::<
                Seq<(Seq<char>, Seq<(Seq<char>, Decimal)>, Option<Seq<(Seq<char>, Decimal)>>)>,
                Seq<char>,
            >(e@),
        },
{
    let ghost f = balance_row_fn();
    assert(json_rows@.take(0) =~= Seq::<Json>::empty());
    let mut out: Vec<BalanceRow> = Vec::new();
    assert(rows_view(out@) =~= Seq::empty());
    let mut i: usize = 0;
    let null = Json::Null;
    while i < json_rows.len()
        invariant
            i <= json_rows.len(),
            f == balance_row_fn(),
            map_results(json_rows@.take(i as int), f) == Ok::<
                Seq<(Seq<char>, Seq<(Seq<char>, Decimal)>, Option<Seq<(Seq<char>, Decimal)>>)>,
                Seq<char>,
            >(rows_view(out@)),
            forall|k: int| 0 <= k < out@.len() ==> row_wf(#[trigger] out@[k]),
            null == Json::Null,
        decreases json_rows.len() - i,
    {
        proof {
            lemma_map_results_step(json_rows@, f, i as int, rows_view(out@));
        }
        let row = &json_rows[i];
        let parsed = parse_balance_row(row, &null);
        match parsed {
            Ok(b) => {
                let ghost before = out@;
                out.push(b);
                assert(rows_view(out@) =~= rows_view(before).push(row_view(b)));
            },
            Err(e) => {
                proof {
                    lemma_map_results_err_extends(json_rows@, f, i + 1, e@);
                }
                return Err(e);
            },
        }
        i = i + 1;
    }
    assert(json_rows@.take(json_rows.len() as int) =~= json_rows@);
    Ok(out)
}

/// Every amount of a row is within `rust_decimal`'s range.
pub open spec fn row_wf(r: BalanceRow) -> bool {
    &&& amounts_wf(r.positions@)
    &&& r.converted_positions matches Some(c) ==> amounts_wf(c@)
}

fn parse_balance_row(row: &Json, null: &Json) -> (r: Result<BalanceRow, String>)
    requires
        *null == Json::Null,
    ensures
        match r {
            Ok(b) => balance_row_spec(*row) == Ok::<
                (Seq<char>, Seq<(Seq<char>, Decimal)>, Option<Seq<(Seq<char>, Decimal)>>),
                Seq<char>,
            >(row_view(b)) && row_wf(b),
            Err(e) => balance_row_spec(*row) == Err::<
                (Seq<char>, Seq<(Seq<char>, Decimal)>, Option<Seq<(Seq<char>, Decimal)>>),
                Seq<char>,
            >(e@),
        },
{
    let account = need_str_exec(row, "account", "missing account field")?;
    let bal = match row.get("Balance") {
        Some(v) => v,
        None => null,
    };
    let positions = parse_inventory_positions(bal, "Balance")?;
    let converted_positions = match row.get("Converted") {
        None => None,
        Some(c) => Some(parse_inventory_positions(c, "Converted")?),
    };
    Ok(BalanceRow { account, positions, converted_positions })
}

// ---------------------------------------------------------------------------
// Hierarchy and depth
// ---------------------------------------------------------------------------

/// A running sum went past `rust_decimal`'s range (where `+=` panics with
/// "Addition overflowed").
#[derive(Debug)]
pub struct SumOverflow;

/// Every row is within `rust_decimal`'s range.
pub open spec fn rows_wf(rows: Seq<BalanceRow>) -> bool {
    forall|i: int| 0 <= i < rows.len() ==> row_wf(#[trigger] rows[i])
}

/// The account and its parents, shortest first: the first `d` segments of
/// `account` (split at `:`) joined by `:`, for `d` from one to the number
/// of segments.
pub open spec fn ancestors(account: Seq<char>) -> Seq<Seq<char>> {
    let parts = split_char(account, ':');
    Seq::new(parts.len(), |d: int| join(parts.take(d + 1), ":"@))
}

fn ancestors_exec(account: &String) -> (r: Vec<String>)
    ensures
        views(r@) == ancestors(account@),
{
    let parts = split_on_char(account.as_str(), ':');
    let ghost pv = views(parts@);
    let mut prefix: Vec<String> = Vec::new();
    let mut r: Vec<String> = Vec::new();
    let mut d: usize = 0;
    assert(views(prefix@) =~= pv.take(0));
    assert(views(r@) =~= ancestors(account@).take(0));
    while d < parts.len()
        invariant
            d <= parts.len(),
            pv == views(parts@),
            pv == split_char(account@, ':'),
            views(prefix@) == pv.take(d as int),
            views(r@) == ancestors(account@).take(d as int),
        decreases parts.len() - d,
    {
        let ghost before_p = prefix@;
        let ghost before_r = r@;
        prefix.push(parts[d].clone());
        assert(views(prefix@) =~= views(before_p).push(pv[d as int]));
        assert(pv.take(d + 1) =~= pv.take(d as int).push(pv[d as int]));
        let j = join_strings(&prefix, ":");
        r.push(j);
        assert(views(r@) =~= views(before_r).push(j@));
        d = d + 1;
        assert(ancestors(account@).take(d as int) =~= ancestors(account@).take(d - 1).push(ancestors(account@)[d - 1]));
    }
    assert(ancestors(account@).take(parts.len() as int) =~= ancestors(account@));
    r
}

/// The events of the hierarchy: every row brings its positions to its
/// account and to each parent of it.
pub open spec fn hierarchy_events(rows: Seq<BalanceRow>) -> Seq<(Seq<char>, Seq<(Seq<char>, Decimal)>)>
    decreases rows.len(),
{
    if rows.len() == 0 {
        Seq::empty()
    } else {
        hierarchy_events(rows.drop_last()) + named_events(
            ancestors(rows.last().account@),
            positions_view(rows.last().positions@),
        )
    }
}

/// The converted events of the hierarchy: every row with converted
/// positions brings them to its account and to each parent of it.
pub open spec fn hierarchy_converted_events(rows: Seq<BalanceRow>) -> Seq<(Seq<char>, Seq<(Seq<char>, Decimal)>)>
    decreases rows.len(),
{
    if rows.len() == 0 {
        Seq::empty()
    } else {
        hierarchy_converted_events(rows.drop_last()) + match rows.last().converted_positions {
            Some(cs) => named_events(ancestors(rows.last().account@), positions_view(cs@)),
            None => Seq::empty(),
        }
    }
}

pub proof fn lemma_hierarchy_events_append(a: Seq<BalanceRow>, b: Seq<BalanceRow>)
    ensures
        hierarchy_events(a + b) == hierarchy_events(a) + hierarchy_events(b),
        hierarchy_converted_events(a + b) == hierarchy_converted_events(a) + hierarchy_converted_events(b),
    decreases b.len(),
{
    if b.len() == 0 {
        assert(a + b =~= a);
        assert(hierarchy_events(a) + hierarchy_events(b) =~= hierarchy_events(a));
        assert(hierarchy_converted_events(a) + hierarchy_converted_events(b) =~= hierarchy_converted_events(a));
    } else {
        lemma_hierarchy_events_append(a, b.drop_last());
        assert((a + b).drop_last() =~= a + b.drop_last());
        assert((a + b).last() == b.last());
        let x = named_events(ancestors(b.last().account@), positions_view(b.last().positions@));
        assert(hierarchy_events(a) + hierarchy_events(b.drop_last()) + x =~= hierarchy_events(a) + (hierarchy_events(
            b.drop_last(),
        ) + x));
        let y: Seq<(Seq<char>, Seq<(Seq<char>, Decimal)>)> = match b.last().converted_positions {
            Some(cs) => named_events(ancestors(b.last().account@), positions_view(cs@)),
            None => Seq::empty(),
        };
        assert(hierarchy_converted_events(a) + hierarchy_converted_events(b.drop_last()) + y
            =~= hierarchy_converted_events(a) + (hierarchy_converted_events(b.drop_last()) + y));
    }
}

/// The accounts of some rows.
pub open spec fn accounts_of(rows: Seq<BalanceRow>) -> Seq<Seq<char>> {
    rows.map_values(|r: BalanceRow| r.account@)
}

/// `out` is the report of the sums that `events` (positions) and
/// `converted` (converted positions) bring: one row per account that an
/// event names, in account order, with the sums per currency in currency
/// order; converted sums where a converted event names the account.
pub open spec fn group_report(
    out: Seq<BalanceRow>,
    events: Seq<(Seq<char>, Seq<(Seq<char>, Decimal)>)>,
    converted: Seq<(Seq<char>, Seq<(Seq<char>, Decimal)>)>,
) -> bool {
    &&& strictly_sorted(accounts_of(out))
    &&& accounts_of(out).to_set() == key_set(events)
    &&& forall|i: int|
        0 <= i < out.len() ==> sums_of(positions_view((#[trigger] out[i]).positions@), brought_to(events, out[i].account@))
    &&& forall|i: int|
        0 <= i < out.len() ==> ((#[trigger] out[i]).converted_positions is Some <==> key_set(converted).contains(
            out[i].account@,
        ))
    &&& forall|i: int|
        0 <= i < out.len() ==> ((#[trigger] out[i]).converted_positions matches Some(cs) ==> sums_of(
            positions_view(cs@),
            brought_to(converted, out[i].account@),
        ))
}

/// One row per account of `totals`, with the converted sums of the same
/// account where `converted` has them.
fn merge_groups(
    totals: &Vec<NameSums>,
    converted: &Vec<NameSums>,
    Ghost(events): Ghost<Seq<(Seq<char>, Seq<(Seq<char>, Decimal)>)>>,
    Ghost(cevents): Ghost<Seq<(Seq<char>, Seq<(Seq<char>, Decimal)>)>>,
) -> (out: Vec<BalanceRow>)
    requires
        grouped(groups_view(totals@), events),
        grouped(groups_view(converted@), cevents),
        groups_wf(totals@),
        groups_wf(converted@),
    ensures
        group_report(out@, events, cevents),
        rows_wf(out@),
{
    let ghost tg = groups_view(totals@);
    let ghost cg = groups_view(converted@);
    let mut out: Vec<BalanceRow> = Vec::new();
    let mut i: usize = 0;
    while i < totals.len()
        invariant
            i <= totals.len(),
            tg == groups_view(totals@),
            cg == groups_view(converted@),
            grouped(tg, events),
            grouped(cg, cevents),
            groups_wf(totals@),
            groups_wf(converted@),
            out@.len() == i,
            forall|m: int| 0 <= m < i ==> (#[trigger] out@[m]).account@ == tg[m].0,
            forall|m: int| 0 <= m < i ==> positions_view((#[trigger] out@[m]).positions@) == tg[m].1,
            forall|m: int|
                0 <= m < i ==> ((#[trigger] out@[m]).converted_positions is Some <==> key_set(cg).contains(tg[m].0)),
            forall|m: int|
                0 <= m < i ==> ((#[trigger] out@[m]).converted_positions matches Some(cs) ==> sums_of(
                    positions_view(cs@),
                    brought_to(cevents, tg[m].0),
                )),
            rows_wf(out@),
        decreases totals.len() - i,
    {
        let name = totals[i].name.clone();
        let positions = copy_positions(&totals[i].sums);
        assert(amounts_wf(totals@[i as int].sums@));
        let converted_positions = match lookup_name(converted, &name) {
            Some(j) => {
                assert(cg[j as int].0 == name@);
                assert(sums_of(cg[j as int].1, brought_to(cevents, cg[j as int].0)));
                assert(amounts_wf(converted@[j as int].sums@));
                assert(key_set(cg).contains(name@)) by {
                    assert(cg[j as int].0 == name@);
                }
                Some(copy_positions(&converted[j].sums))
            },
            None => None,
        };
        let ghost before = out@;
        out.push(BalanceRow { account: name, positions, converted_positions });
        assert forall|m: int| 0 <= m < out@.len() implies row_wf(#[trigger] out@[m]) by {
            if m < i {
                assert(out@[m] == before[m]);
            }
        }
        i = i + 1;
    }
    proof {
        assert(accounts_of(out@) =~= keys_of(tg));
        assert(accounts_of(out@).to_set() =~= key_set(tg)) by {
            assert forall|x: Seq<char>| key_set(tg).contains(x) implies accounts_of(out@).to_set().contains(x) by {
                let m = choose|m: int| 0 <= m < tg.len() && tg[m].0 == x;
                assert(accounts_of(out@)[m] == x);
            }
        }
        assert forall|m: int| 0 <= m < out@.len() implies sums_of(
            positions_view((#[trigger] out@[m]).positions@),
            brought_to(events, out@[m].account@),
        ) by {
            assert(sums_of(tg[m].1, brought_to(events, tg[m].0)));
        }
    }
    out
}

/// Expands the rows to every parent account, each carrying the sums of the
/// accounts below it (and its own).
pub fn apply_hierarchy(rows: Vec<BalanceRow>) -> (r: Result<Vec<BalanceRow>, SumOverflow>)
    requires
        rows_wf(rows@),
    ensures
        match r {
            Ok(out) => group_report(out@, hierarchy_events(rows@), hierarchy_converted_events(rows@))
                && rows_wf(out@),
            Err(_) => !(events_defined(hierarchy_events(rows@)) && events_defined(
                hierarchy_converted_events(rows@),
            )),
        },
{
    let mut totals: Vec<NameSums> = Vec::new();
    let mut converted: Vec<NameSums> = Vec::new();
    let mut i: usize = 0;
    assert(rows@.take(0) =~= Seq::<BalanceRow>::empty());
    proof {
        assert(key_set(groups_view(totals@)) =~= key_set(hierarchy_events(rows@.take(0))));
        assert(key_set(groups_view(converted@)) =~= key_set(hierarchy_converted_events(rows@.take(0))));
    }
    while i < rows.len()
        invariant
            i <= rows.len(),
            rows_wf(rows@),
            grouped(groups_view(totals@), hierarchy_events(rows@.take(i as int))),
            grouped(groups_view(converted@), hierarchy_converted_events(rows@.take(i as int))),
            groups_wf(totals@),
            groups_wf(converted@),
        decreases rows.len() - i,
    {
        let ghost ev = hierarchy_events(rows@.take(i as int));
        let ghost cev = hierarchy_converted_events(rows@.take(i as int));
        let ghost row = rows@[i as int];
        proof {
            assert(rows@.take(i + 1).drop_last() =~= rows@.take(i as int));
            lemma_hierarchy_events_append(rows@.take(i + 1), rows@.skip(i + 1));
            assert(rows@.take(i + 1) + rows@.skip(i + 1) =~= rows@);
            assert(row_wf(row));
        }
        let anc = ancestors_exec(&rows[i].account);
        if !add_named_events(&mut totals, &anc, &rows[i].positions, Ghost(ev)) {
            proof {
                lemma_events_undefined_extends(hierarchy_events(rows@.take(i + 1)), hierarchy_events(rows@.skip(i + 1)));
            }
            return Err(SumOverflow);
        }
        match &rows[i].converted_positions {
            Some(cs) => {
                if !add_named_events(&mut converted, &anc, cs, Ghost(cev)) {
                    proof {
                        lemma_events_undefined_extends(
                            hierarchy_converted_events(rows@.take(i + 1)),
                            hierarchy_converted_events(rows@.skip(i + 1)),
                        );
                    }
                    return Err(SumOverflow);
                }
            },
            None => {
                assert(cev + Seq::<(Seq<char>, Seq<(Seq<char>, Decimal)>)>::empty() =~= cev);
            },
        }
        i = i + 1;
    }
    assert(rows@.take(rows.len() as int) =~= rows@);
    Ok(merge_groups(&totals, &converted, Ghost(hierarchy_events(rows@)), Ghost(hierarchy_converted_events(rows@))))
}

/// Where `--depth` puts an account's balance: the account's first `depth`
/// segments joined by `:` when it has more, else the account itself.
pub open spec fn collapse_key(account: Seq<char>, depth: nat) -> Seq<char> {
    let parts = split_char(account, ':');
    if parts.len() > depth {
        join(parts.take(depth as int), ":"@)
    } else {
        account
    }
}

/// Where `--depth` puts an account's converted balance: its first `depth`
/// segments (all, when it has fewer), joined by `:`.
pub open spec fn collapse_converted_key(account: Seq<char>, depth: nat) -> Seq<char> {
    let parts = split_char(account, ':');
    join(parts.take(if parts.len() > depth { depth as int } else { parts.len() as int }), ":"@)
}

/// The events of depth collapse: every row brings its positions to its
/// collapsed account.
pub open spec fn collapse_events(rows: Seq<BalanceRow>, depth: nat) -> Seq<(Seq<char>, Seq<(Seq<char>, Decimal)>)>
    decreases rows.len(),
{
    if rows.len() == 0 {
        Seq::empty()
    } else {
        collapse_events(rows.drop_last(), depth).push(
            (collapse_key(rows.last().account@, depth), positions_view(rows.last().positions@)),
        )
    }
}

/// The converted events of depth collapse: every row with converted
/// positions brings them to its collapsed account.
pub open spec fn collapse_converted_events(rows: Seq<BalanceRow>, depth: nat) -> Seq<(Seq<char>, Seq<(Seq<char>, Decimal)>)>
    decreases rows.len(),
{
    if rows.len() == 0 {
        Seq::empty()
    } else {
        match rows.last().converted_positions {
            Some(cs) => collapse_converted_events(rows.drop_last(), depth).push(
                (collapse_converted_key(rows.last().account@, depth), positions_view(cs@)),
            ),
            None => collapse_converted_events(rows.drop_last(), depth),
        }
    }
}

pub proof fn lemma_collapse_events_append(a: Seq<BalanceRow>, b: Seq<BalanceRow>, depth: nat)
    ensures
        collapse_events(a + b, depth) == collapse_events(a, depth) + collapse_events(b, depth),
        collapse_converted_events(a + b, depth) == collapse_converted_events(a, depth) + collapse_converted_events(b, depth),
    decreases b.len(),
{
    if b.len() == 0 {
        assert(a + b =~= a);
        assert(collapse_events(a, depth) + collapse_events(b, depth) =~= collapse_events(a, depth));
        assert(collapse_converted_events(a, depth) + collapse_converted_events(b, depth) =~= collapse_converted_events(a, depth));
    } else {
        lemma_collapse_events_append(a, b.drop_last(), depth);
        assert((a + b).drop_last() =~= a + b.drop_last());
        assert((a + b).last() == b.last());
        let x = (collapse_key(b.last().account@, depth), positions_view(b.last().positions@));
        assert(collapse_events(a, depth) + collapse_events(b.drop_last(), depth).push(x) =~= (collapse_events(a, depth)
            + collapse_events(b.drop_last(), depth)).push(x));
        match b.last().converted_positions {
            Some(cs) => {
                let y = (collapse_converted_key(b.last().account@, depth), positions_view(cs@));
                assert(collapse_converted_events(a, depth) + collapse_converted_events(b.drop_last(), depth).push(y)
                    =~= (collapse_converted_events(a, depth) + collapse_converted_events(b.drop_last(), depth)).push(y));
            },
            None => {},
        }
    }
}

fn collapse_keys(account: &String, depth: u32) -> (r: (String, String))
    ensures
        r.0@ == collapse_key(account@, depth as nat),
        r.1@ == collapse_converted_key(account@, depth as nat),
{
    let parts = split_on_char(account.as_str(), ':');
    let ghost pv = views(parts@);
    let deeper = parts.len() > depth as usize;
    let n: usize = if deeper { depth as usize } else { parts.len() };
    let mut prefix: Vec<String> = Vec::new();
    let mut d: usize = 0;
    assert(views(prefix@) =~= pv.take(0));
    while d < n
        invariant
            d <= n <= parts.len(),
            pv == views(parts@),
            views(prefix@) == pv.take(d as int),
        decreases n - d,
    {
        let ghost before = prefix@;
        prefix.push(parts[d].clone());
        assert(views(prefix@) =~= views(before).push(pv[d as int]));
        assert(pv.take(d + 1) =~= pv.take(d as int).push(pv[d as int]));
        d = d + 1;
    }
    let joined = join_strings(&prefix, ":");
    if deeper {
        (joined.clone(), joined)
    } else {
        (account.clone(), joined)
    }
}

/// Collapses every account deeper than `depth` segments into its
/// `depth`-level ancestor, summing what lands on the same account.
pub fn apply_depth_collapse(rows: Vec<BalanceRow>, depth: u32) -> (r: Result<Vec<BalanceRow>, SumOverflow>)
    requires
        rows_wf(rows@),
    ensures
        match r {
            Ok(out) => group_report(out@, collapse_events(rows@, depth as nat), collapse_converted_events(rows@, depth as nat))
                && rows_wf(out@),
            Err(_) => !(events_defined(collapse_events(rows@, depth as nat)) && events_defined(
                collapse_converted_events(rows@, depth as nat),
            )),
        },
{
    let ghost dn = depth as nat;
    let mut totals: Vec<NameSums> = Vec::new();
    let mut converted: Vec<NameSums> = Vec::new();
    let mut i: usize = 0;
    assert(rows@.take(0) =~= Seq::<BalanceRow>::empty());
    proof {
        assert(key_set(groups_view(totals@)) =~= key_set(collapse_events(rows@.take(0), dn)));
        assert(key_set(groups_view(converted@)) =~= key_set(collapse_converted_events(rows@.take(0), dn)));
    }
    while i < rows.len()
        invariant
            i <= rows.len(),
            dn == depth as nat,
            rows_wf(rows@),
            grouped(groups_view(totals@), collapse_events(rows@.take(i as int), dn)),
            grouped(groups_view(converted@), collapse_converted_events(rows@.take(i as int), dn)),
            groups_wf(totals@),
            groups_wf(converted@),
        decreases rows.len() - i,
    {
        let ghost ev = collapse_events(rows@.take(i as int), dn);
        let ghost cev = collapse_converted_events(rows@.take(i as int), dn);
        let ghost row = rows@[i as int];
        proof {
            assert(rows@.take(i + 1).drop_last() =~= rows@.take(i as int));
            lemma_collapse_events_append(rows@.take(i + 1), rows@.skip(i + 1), dn);
            assert(rows@.take(i + 1) + rows@.skip(i + 1) =~= rows@);
            assert(row_wf(row));
        }
        let (key, ckey) = collapse_keys(&rows[i].account, depth);
        if !add_event(&mut totals, &key, &rows[i].positions, Ghost(ev)) {
            proof {
                let e = (key@, positions_view(row.positions@));
                assert(!events_defined(ev.push(e))) by {
                    assert(!sums_defined(brought_to(ev.push(e), key@)));
                }
                lemma_events_undefined_extends(collapse_events(rows@.take(i + 1), dn), collapse_events(rows@.skip(i + 1), dn));
            }
            return Err(SumOverflow);
        }
        match &rows[i].converted_positions {
            Some(cs) => {
                if !add_event(&mut converted, &ckey, cs, Ghost(cev)) {
                    proof {
                        let e = (ckey@, positions_view(cs@));
                        assert(!events_defined(cev.push(e))) by {
                            assert(!sums_defined(brought_to(cev.push(e), ckey@)));
                        }
                        lemma_events_undefined_extends(
                            collapse_converted_events(rows@.take(i + 1), dn),
                            collapse_converted_events(rows@.skip(i + 1), dn),
                        );
                    }
                    return Err(SumOverflow);
                }
            },
            None => {},
        }
        i = i + 1;
    }
    assert(rows@.take(rows.len() as int) =~= rows@);
    Ok(merge_groups(&totals, &converted, Ghost(collapse_events(rows@, dn)), Ghost(collapse_converted_events(rows@, dn))))
}

// ---------------------------------------------------------------------------
// Grand total
// ---------------------------------------------------------------------------

/// The number of `:` separators of an account (one less than its segments).
pub open spec fn separators(account: Seq<char>) -> nat {
    count_char(account, ':')
}

/// The fewest separators among the rows' accounts (the top level).
pub open spec fn min_separators(rows: Seq<BalanceRow>) -> nat
    decreases rows.len(),
{
    if rows.len() <= 1 {
        if rows.len() == 0 {
            0
        } else {
            separators(rows[0].account@)
        }
    } else {
        let m = min_separators(rows.drop_last());
        let x = separators(rows.last().account@);
        if x < m {
            x
        } else {
            m
        }
    }
}

/// Whether a row counts toward the grand total: with `--hierarchy` the
/// top-level rows only (so nothing is counted twice), with `--depth d` the
/// rows of fewer than `d` separators, else every row.
pub open spec fn in_total(r: BalanceRow, top: nat, hierarchy: bool, depth: Option<u32>) -> bool {
    if hierarchy {
        separators(r.account@) == top
    } else {
        match depth {
            Some(d) => separators(r.account@) < d,
            None => true,
        }
    }
}

/// The positions that go into the grand total, in row order.
pub open spec fn total_items(rows: Seq<BalanceRow>, top: nat, hierarchy: bool, depth: Option<u32>) -> Seq<(Seq<char>, Decimal)>
    decreases rows.len(),
{
    if rows.len() == 0 {
        Seq::empty()
    } else {
        total_items(rows.drop_last(), top, hierarchy, depth) + if in_total(rows.last(), top, hierarchy, depth) {
            positions_view(rows.last().positions@)
        } else {
            Seq::empty()
        }
    }
}

/// The converted positions that go into the grand total, in row order.
pub open spec fn total_converted_items(rows: Seq<BalanceRow>, top: nat, hierarchy: bool, depth: Option<u32>) -> Seq<
    (Seq<char>, Decimal),
>
    decreases rows.len(),
{
    if rows.len() == 0 {
        Seq::empty()
    } else {
        total_converted_items(rows.drop_last(), top, hierarchy, depth) + if in_total(
            rows.last(),
            top,
            hierarchy,
            depth,
        ) {
            match rows.last().converted_positions {
                Some(cs) => positions_view(cs@),
                None => Seq::empty(),
            }
        } else {
            Seq::empty()
        }
    }
}

/// The grand total of the rows: for each currency, the sum of the counted
/// rows' amounts; `None` when nothing is counted; converted sums when some
/// counted row has converted positions.
pub open spec fn grand_total(rows: Seq<BalanceRow>, hierarchy: bool, depth: Option<u32>, r: Option<BalanceTotals>) -> bool {
    let items = total_items(rows, min_separators(rows), hierarchy, depth);
    let citems = total_converted_items(rows, min_separators(rows), hierarchy, depth);
    match r {
        None => items.len() == 0,
        Some(t) => {
            &&& items.len() > 0
            &&& sums_of(positions_view(t.positions@), items)
            &&& (t.converted_positions is None <==> citems.len() == 0)
            &&& (t.converted_positions matches Some(cs) ==> sums_of(positions_view(cs@), citems))
        },
    }
}

fn min_separators_exec(rows: &Vec<BalanceRow>) -> (m: usize)
    ensures
        m == min_separators(rows@),
{
    let mut m: usize = 0;
    let mut i: usize = 0;
    assert(rows@.take(0) =~= Seq::<BalanceRow>::empty());
    while i < rows.len()
        invariant
            i <= rows.len(),
            m == min_separators(rows@.take(i as int)),
        decreases rows.len() - i,
    {
        let x = count_char_str(rows[i].account.as_str(), ':');
        assert(rows@.take(i + 1).drop_last() =~= rows@.take(i as int));
        if i == 0 || x < m {
            m = x;
        }
        i = i + 1;
    }
    assert(rows@.take(rows.len() as int) =~= rows@);
    m
}

/// Computes the grand total (see [`grand_total`]).
pub fn compute_grand_total(rows: &Vec<BalanceRow>, hierarchy: bool, depth: Option<u32>) -> (r: Result<
    Option<BalanceTotals>,
    SumOverflow,
>)
    requires
        rows_wf(rows@),
    ensures
        match r {
            Ok(t) => grand_total(rows@, hierarchy, depth, t) && sums_defined(
                total_items(rows@, min_separators(rows@), hierarchy, depth),
            ) && sums_defined(total_converted_items(rows@, min_separators(rows@), hierarchy, depth)) && match t {
                Some(t) => amounts_wf(t.positions@) && (t.converted_positions matches Some(cs) ==> amounts_wf(cs@)),
                None => true,
            },
            Err(_) => !(sums_defined(total_items(rows@, min_separators(rows@), hierarchy, depth)) && sums_defined(
                total_converted_items(rows@, min_separators(rows@), hierarchy, depth),
            )),
        },
{
    let ghost top = min_separators(rows@);
    let top_exec = min_separators_exec(rows);
    let mut totals: Vec<Position> = Vec::new();
    let mut converted: Vec<Position> = Vec::new();
    let mut i: usize = 0;
    assert(rows@.take(0) =~= Seq::<BalanceRow>::empty());
    proof {
        assert(key_set(positions_view(totals@)) =~= key_set(total_items(rows@.take(0), top, hierarchy, depth)));
        assert(key_set(positions_view(converted@)) =~= key_set(
            total_converted_items(rows@.take(0), top, hierarchy, depth),
        ));
    }
    while i < rows.len()
        invariant
            i <= rows.len(),
            top == min_separators(rows@),
            top_exec == top,
            rows_wf(rows@),
            sums_of(positions_view(totals@), total_items(rows@.take(i as int), top, hierarchy, depth)),
            sums_of(positions_view(converted@), total_converted_items(rows@.take(i as int), top, hierarchy, depth)),
            amounts_wf(totals@),
            amounts_wf(converted@),
        decreases rows.len() - i,
    {
        let ghost items = total_items(rows@.take(i as int), top, hierarchy, depth);
        let ghost citems = total_converted_items(rows@.take(i as int), top, hierarchy, depth);
        let ghost row = rows@[i as int];
        proof {
            assert(rows@.take(i + 1).drop_last() =~= rows@.take(i as int));
            lemma_total_items_append(rows@.take(i + 1), rows@.skip(i + 1), top, hierarchy, depth);
            assert(rows@.take(i + 1) + rows@.skip(i + 1) =~= rows@);
            assert(row_wf(row));
        }
        let seps = count_char_str(rows[i].account.as_str(), ':');
        let counted = if hierarchy {
            seps == top_exec
        } else {
            match depth {
                Some(d) => seps < d as usize,
                None => true,
            }
        };
        if counted {
            if !add_positions(&mut totals, &rows[i].positions, Ghost(items)) {
                proof {
                    lemma_sums_undefined_extends(
                        total_items(rows@.take(i + 1), top, hierarchy, depth),
                        total_items(rows@.skip(i + 1), top, hierarchy, depth),
                    );
                }
                return Err(SumOverflow);
            }
            match &rows[i].converted_positions {
                Some(cs) => {
                    if !add_positions(&mut converted, cs, Ghost(citems)) {
                        proof {
                            lemma_sums_undefined_extends(
                                total_converted_items(rows@.take(i + 1), top, hierarchy, depth),
                                total_converted_items(rows@.skip(i + 1), top, hierarchy, depth),
                            );
                        }
                        return Err(SumOverflow);
                    }
                },
                None => {
                    assert(citems + Seq::<(Seq<char>, Decimal)>::empty() =~= citems);
                },
            }
        } else {
            assert(items + Seq::<(Seq<char>, Decimal)>::empty() =~= items);
            assert(citems + Seq::<(Seq<char>, Decimal)>::empty() =~= citems);
        }
        i = i + 1;
    }
    assert(rows@.take(rows.len() as int) =~= rows@);
    proof {
        lemma_sums_of_defined(positions_view(totals@), total_items(rows@, top, hierarchy, depth));
        lemma_sums_of_defined(positions_view(converted@), total_converted_items(rows@, top, hierarchy, depth));
        lemma_sums_of_empty(positions_view(totals@), total_items(rows@, top, hierarchy, depth));
        lemma_sums_of_empty(positions_view(converted@), total_converted_items(rows@, top, hierarchy, depth));
    }
    if totals.len() == 0 {
        return Ok(None);
    }
    let converted_positions = if converted.len() == 0 {
        None
    } else {
        Some(converted)
    };
    Ok(Some(BalanceTotals { positions: totals, converted_positions }))
}

pub proof fn lemma_total_items_append(a: Seq<BalanceRow>, b: Seq<BalanceRow>, top: nat, hierarchy: bool, depth: Option<u32>)
    ensures
        total_items(a + b, top, hierarchy, depth) == total_items(a, top, hierarchy, depth) + total_items(b, top, hierarchy, depth),
        total_converted_items(a + b, top, hierarchy, depth) == total_converted_items(a, top, hierarchy, depth)
            + total_converted_items(b, top, hierarchy, depth),
    decreases b.len(),
{
    if b.len() == 0 {
        assert(a + b =~= a);
        assert(total_items(a, top, hierarchy, depth) + total_items(b, top, hierarchy, depth) =~= total_items(a, top, hierarchy, depth));
        assert(total_converted_items(a, top, hierarchy, depth) + total_converted_items(b, top, hierarchy, depth)
            =~= total_converted_items(a, top, hierarchy, depth));
    } else {
        lemma_total_items_append(a, b.drop_last(), top, hierarchy, depth);
        assert((a + b).drop_last() =~= a + b.drop_last());
        assert((a + b).last() == b.last());
        let x: Seq<(Seq<char>, Decimal)> = if in_total(b.last(), top, hierarchy, depth) {
            positions_view(b.last().positions@)
        } else {
            Seq::empty()
        };
        assert(total_items(a, top, hierarchy, depth) + total_items(b.drop_last(), top, hierarchy, depth) + x
            =~= total_items(a, top, hierarchy, depth) + (total_items(b.drop_last(), top, hierarchy, depth) + x));
        let y: Seq<(Seq<char>, Decimal)> = if in_total(b.last(), top, hierarchy, depth) {
            match b.last().converted_positions {
                Some(cs) => positions_view(cs@),
                None => Seq::empty(),
            }
        } else {
            Seq::empty()
        };
        assert(total_converted_items(a, top, hierarchy, depth) + total_converted_items(b.drop_last(), top, hierarchy, depth)
            + y =~= total_converted_items(a, top, hierarchy, depth) + (total_converted_items(
            b.drop_last(),
            top,
            hierarchy,
            depth,
        ) + y));
    }
}

// ---------------------------------------------------------------------------
// Filters on the rows
// ---------------------------------------------------------------------------

/// Whether `a op v` holds, for the operators an amount filter can carry.
pub open spec fn compares(op: Seq<char>, a: Decimal, v: Decimal) -> bool {
    if op == ">"@ {
        dec_lt(v, a)
    } else if op == ">="@ {
        !dec_lt(a, v)
    } else if op == "<"@ {
        dec_lt(a, v)
    } else if op == "<="@ {
        !dec_lt(v, a)
    } else if op == "="@ {
        dec_eq(a, v)
    } else if op == "!="@ {
        !dec_eq(a, v)
    } else {
        false
    }
}

/// Whether a position `(currency, amount)` passes a filter
/// `(operator, value, currency)`: the currency matches when the filter
/// names one, and the comparison holds.
pub open spec fn passes_filter(p: (Seq<char>, Decimal), f: (Seq<char>, (int, int), Option<Seq<char>>)) -> bool {
    &&& (f.2 matches Some(c) ==> p.0 == c)
    &&& compares(f.0, p.1, decimal_of(f.1.0, f.1.1))
}

/// Whether some position of the row passes the filter.
pub open spec fn filter_met(r: BalanceRow, f: (Seq<char>, (int, int), Option<Seq<char>>)) -> bool {
    exists|j: int| 0 <= j < r.positions@.len() && passes_filter(pos_view(#[trigger] r.positions@[j]), f)
}

/// Whether every filter is passed by some position of the row.
pub open spec fn passes_filters(r: BalanceRow, fs: Seq<(Seq<char>, (int, int), Option<Seq<char>>)>) -> bool {
    forall|k: int| 0 <= k < fs.len() ==> filter_met(r, #[trigger] fs[k])
}

/// The rows that pass every filter, in order.
pub open spec fn passing_rows(rows: Seq<BalanceRow>, fs: Seq<(Seq<char>, (int, int), Option<Seq<char>>)>) -> Seq<BalanceRow> {
    rows.filter(|r: BalanceRow| passes_filters(r, fs))
}

/// The rows of fewer than `depth` separators, in order.
pub open spec fn shallow_rows(rows: Seq<BalanceRow>, depth: u32) -> Seq<BalanceRow> {
    rows.filter(|r: BalanceRow| separators(r.account@) < depth)
}

/// The rows with some amount that is not zero, in order.
pub open spec fn nonzero_rows(rows: Seq<BalanceRow>) -> Seq<BalanceRow> {
    rows.filter(|r: BalanceRow| has_nonzero(r))
}

/// The index of the first argument that is not an amount filter.
pub open spec fn first_invalid_filter(args: Seq<Seq<char>>) -> Option<int>
    decreases args.len(),
{
    if args.len() == 0 {
        None
    } else {
        match first_invalid_filter(args.drop_last()) {
            Some(k) => Some(k),
            None => if amount_filter_spec(args.last()) is None {
                Some(args.len() - 1)
            } else {
                None
            },
        }
    }
}

/// The parsed filters of arguments that all parse.
pub open spec fn filters_of(args: Seq<Seq<char>>) -> Seq<(Seq<char>, (int, int), Option<Seq<char>>)> {
    args.map_values(|a: Seq<char>| amount_filter_spec(a)->0)
}

proof fn lemma_first_invalid_step(args: Seq<Seq<char>>, i: int)
    requires
        0 <= i < args.len(),
        first_invalid_filter(args.take(i)) is None,
    ensures
        first_invalid_filter(args.take(i + 1)) == if amount_filter_spec(args[i]) is None {
            Some(i)
        } else {
            None::<int>
        },
{
    assert(args.take(i + 1).drop_last() =~= args.take(i));
}

proof fn lemma_first_invalid_prefix(args: Seq<Seq<char>>, i: int)
    requires
        0 <= i <= args.len(),
        first_invalid_filter(args.take(i)) is Some,
    ensures
        first_invalid_filter(args) == first_invalid_filter(args.take(i)),
    decreases args.len() - i,
{
    if i == args.len() {
        assert(args.take(i) =~= args);
    } else {
        assert(args.take(i + 1).drop_last() =~= args.take(i));
        lemma_first_invalid_prefix(args, i + 1);
    }
}

fn compares_exec(op: &String, a: Decimal, v: Decimal) -> (r: bool)
    requires
        a.wf(),
        v.wf(),
    ensures
        r == compares(op@, a, v),
{
    proof {
        reveal_strlit(">");
        reveal_strlit(">=");
        reveal_strlit("<");
        reveal_strlit("<=");
        reveal_strlit("=");
        reveal_strlit("!=");
    }
    if same_text(op.as_str(), ">") {
        less_than(v, a)
    } else if same_text(op.as_str(), ">=") {
        !less_than(a, v)
    } else if same_text(op.as_str(), "<") {
        less_than(a, v)
    } else if same_text(op.as_str(), "<=") {
        !less_than(v, a)
    } else if same_text(op.as_str(), "=") {
        equals(a, v)
    } else if same_text(op.as_str(), "!=") {
        !equals(a, v)
    } else {
        false
    }
}

/// The views of parsed amount filters.
pub open spec fn filter_views(fs: Seq<AmountFilter>) -> Seq<(Seq<char>, (int, int), Option<Seq<char>>)> {
    fs.map_values(|f: AmountFilter| amount_filter_view(f))
}

fn passes_filters_exec(row: &BalanceRow, filters: &Vec<AmountFilter>) -> (r: bool)
    requires
        row_wf(*row),
        forall|k: int| 0 <= k < filters@.len() ==> (#[trigger] filters@[k]).value.wf(),
    ensures
        r == passes_filters(*row, filter_views(filters@)),
{
    let ghost fs = filter_views(filters@);
    let mut k: usize = 0;
    while k < filters.len()
        invariant
            k <= filters.len(),
            fs == filter_views(filters@),
            row_wf(*row),
            forall|m: int| 0 <= m < filters@.len() ==> (#[trigger] filters@[m]).value.wf(),
            forall|m: int| 0 <= m < k ==> filter_met(*row, #[trigger] fs[m]),
        decreases filters.len() - k,
    {
        let f = &filters[k];
        let ghost fv = fs[k as int];
        assert(fv == amount_filter_view(*f));
        assert(decimal_of(fv.1.0, fv.1.1) == f.value);
        let mut found = false;
        let mut j: usize = 0;
        while j < row.positions.len()
            invariant
                j <= row.positions.len(),
                row_wf(*row),
                f.value.wf(),
                fv == amount_filter_view(*f),
                fv == fs[k as int],
                decimal_of(fv.1.0, fv.1.1) == f.value,
                found ==> exists|m: int| 0 <= m < j && passes_filter(pos_view(row.positions@[m]), fv),
                !found ==> forall|m: int| 0 <= m < j ==> !passes_filter(pos_view(row.positions@[m]), fv),
            decreases row.positions.len() - j,
        {
            let p = &row.positions[j];
            assert(p.amount.wf());
            let cur_ok = match &f.currency {
                Some(c) => same_text(p.currency.as_str(), c.as_str()),
                None => true,
            };
            if cur_ok && compares_exec(&f.operator, p.amount, f.value) {
                found = true;
            }
            j = j + 1;
        }
        if !found {
            assert(!filter_met(*row, fs[k as int]));
            return false;
        }
        k = k + 1;
    }
    assert(fs.len() == filters@.len());
    true
}

/// Keeps the rows that pass every amount filter (`--amount`, applied to
/// the aggregated balances); the first argument that is not a filter is
/// the error.
pub fn apply_amount_filters(rows: Vec<BalanceRow>, amount_args: &Vec<String>) -> (r: Result<Vec<BalanceRow>, UtilsError>)
    requires
        rows_wf(rows@),
    ensures
        match r {
            Ok(out) => first_invalid_filter(views(amount_args@)) is None && out@ == passing_rows(
                rows@,
                filters_of(views(amount_args@)),
            ) && rows_wf(out@),
            Err(UtilsError::InvalidAmountFilter(m)) => first_invalid_filter(views(amount_args@)) matches Some(k)
                && m@ == amount_args@[k]@,
        },
{
    let ghost args = views(amount_args@);
    let mut filters: Vec<AmountFilter> = Vec::new();
    let mut i: usize = 0;
    assert(args.take(0) =~= Seq::<Seq<char>>::empty());
    while i < amount_args.len()
        invariant
            i <= amount_args.len(),
            args == views(amount_args@),
            first_invalid_filter(args.take(i as int)) is None,
            filters@.len() == i,
            forall|m: int| 0 <= m < i ==> amount_filter_spec(args[m]) == Some(amount_filter_view(#[trigger] filters@[m])),
            forall|m: int| 0 <= m < i ==> (#[trigger] filters@[m]).value.wf(),
        decreases amount_args.len() - i,
    {
        proof {
            lemma_first_invalid_step(args, i as int);
        }
        match parse_amount_filter(amount_args[i].as_str()) {
            Ok(f) => {
                filters.push(f);
            },
            Err(e) => {
                proof {
                    lemma_first_invalid_prefix(args, i + 1);
                }
                return Err(e);
            },
        }
        i = i + 1;
    }
    assert(args.take(amount_args.len() as int) =~= args);
    let ghost fs = filter_views(filters@);
    assert(fs =~= filters_of(args));
    let mut rest = rows;
    let mut out: Vec<BalanceRow> = Vec::new();
    let ghost all = rest@;
    proof {
        reveal(Seq::filter);
    }
    assert(all.take(0) =~= Seq::<BalanceRow>::empty());
    assert(all.skip(0) =~= all);
    while rest.len() > 0
        invariant
            rest@.len() <= all.len(),
            rest@ == all.skip(all.len() - rest@.len()),
            out@ == passing_rows(all.take(all.len() - rest@.len()), filters_of(args)),
            rows_wf(out@),
            rows_wf(all),
            fs == filter_views(filters@),
            fs == filters_of(args),
            forall|m: int| 0 <= m < filters@.len() ==> (#[trigger] filters@[m]).value.wf(),
        decreases rest@.len(),
    {
        proof {
            reveal(Seq::filter);
        }
        let ghost n = all.len() - rest@.len();
        let row = rest.remove(0);
        assert(row == all[n]);
        assert(rest@ =~= all.skip(n + 1));
        assert(all.take(n + 1).drop_last() =~= all.take(n));
        assert(all.take(n + 1).last() == row);
        assert(row_wf(row));
        if passes_filters_exec(&row, &filters) {
            let ghost before = out@;
            out.push(row);
            assert forall|i: int| 0 <= i < out@.len() implies row_wf(#[trigger] out@[i]) by {
                if i < before.len() {
                    assert(out@[i] == before[i]);
                }
            }
        }
    }
    assert(all.take(all.len() as int) =~= all);
    Ok(out)
}

/// Keeps the rows of fewer than `depth` separators (`--depth`).
pub fn retain_shallow(rows: Vec<BalanceRow>, depth: u32) -> (out: Vec<BalanceRow>)
    requires
        rows_wf(rows@),
    ensures
        out@ == shallow_rows(rows@, depth),
        rows_wf(out@),
{
    let mut rest = rows;
    let mut out: Vec<BalanceRow> = Vec::new();
    let ghost all = rest@;
    proof {
        reveal(Seq::filter);
    }
    assert(all.take(0) =~= Seq::<BalanceRow>::empty());
    assert(all.skip(0) =~= all);
    while rest.len() > 0
        invariant
            rest@.len() <= all.len(),
            rest@ == all.skip(all.len() - rest@.len()),
            out@ == shallow_rows(all.take(all.len() - rest@.len()), depth),
            rows_wf(all),
            rows_wf(out@),
        decreases rest@.len(),
    {
        proof {
            reveal(Seq::filter);
        }
        let ghost n = all.len() - rest@.len();
        let row = rest.remove(0);
        assert(row == all[n]);
        assert(rest@ =~= all.skip(n + 1));
        assert(all.take(n + 1).drop_last() =~= all.take(n));
        assert(all.take(n + 1).last() == row);
        assert(row_wf(row));
        if count_char_str(row.account.as_str(), ':') < depth as usize {
            let ghost before = out@;
            out.push(row);
            assert forall|i: int| 0 <= i < out@.len() implies row_wf(#[trigger] out@[i]) by {
                if i < before.len() {
                    assert(out@[i] == before[i]);
                }
            }
        }
    }
    assert(all.take(all.len() as int) =~= all);
    out
}

/// Whether some amount of the row is not zero.
pub open spec fn has_nonzero(r: BalanceRow) -> bool {
    exists|j: int| 0 <= j < r.positions@.len() && !dec_eq(#[trigger] r.positions@[j].amount, zero_dec())
}

/// Keeps the rows with some amount that is not zero (`--zero`).
pub fn retain_nonzero(rows: Vec<BalanceRow>) -> (out: Vec<BalanceRow>)
    requires
        rows_wf(rows@),
    ensures
        out@ == nonzero_rows(rows@),
        rows_wf(out@),
{
    let mut rest = rows;
    let mut out: Vec<BalanceRow> = Vec::new();
    let ghost all = rest@;
    proof {
        reveal(Seq::filter);
    }
    assert(all.take(0) =~= Seq::<BalanceRow>::empty());
    assert(all.skip(0) =~= all);
    while rest.len() > 0
        invariant
            rest@.len() <= all.len(),
            rest@ == all.skip(all.len() - rest@.len()),
            out@ == nonzero_rows(all.take(all.len() - rest@.len())),
            rows_wf(out@),
            rows_wf(all),
        decreases rest@.len(),
    {
        proof {
            reveal(Seq::filter);
        }
        let ghost n = all.len() - rest@.len();
        let row = rest.remove(0);
        assert(row == all[n]);
        assert(rest@ =~= all.skip(n + 1));
        assert(all.take(n + 1).drop_last() =~= all.take(n));
        assert(all.take(n + 1).last() == row);
        assert(row_wf(row));
        let mut any = false;
        let mut j: usize = 0;
        while j < row.positions.len()
            invariant
                j <= row.positions.len(),
                row_wf(row),
                any == exists|m: int| 0 <= m < j && !dec_eq(#[trigger] row.positions@[m].amount, zero_dec()),
            decreases row.positions.len() - j,
        {
            if !equals(row.positions[j].amount, Decimal::zero()) {
                any = true;
            }
            j = j + 1;
        }
        if any {
            let ghost before = out@;
            out.push(row);
            assert forall|i: int| 0 <= i < out@.len() implies row_wf(#[trigger] out@[i]) by {
                if i < before.len() {
                    assert(out@[i] == before[i]);
                }
            }
        }
    }
    assert(all.take(all.len() as int) =~= all);
    out
}

// ---------------------------------------------------------------------------
// Display
// ---------------------------------------------------------------------------

/// How an amount is shown: two decimals, thousands separators, then the
/// currency (`1,369.80 EUR`).
pub open spec fn amount_text(amount: Decimal, currency: Seq<char>) -> Seq<char> {
    with_separators(fixed2_text(amount)) + " "@ + currency
}

/// Formats an amount with its currency (see [`amount_text`]).
pub fn format_amount(amount: Decimal, currency: &str) -> (s: String)
    requires
        amount.wf(),
    ensures
        s@ == amount_text(amount, currency@),
{
    let mut s = format_decimal(amount);
    s.append(" ");
    s.append(currency);
    s
}

/// The texts of some positions, in order.
pub open spec fn position_texts(ps: Seq<Position>) -> Seq<Seq<char>> {
    ps.map_values(|p: Position| amount_text(p.amount, p.currency@))
}

/// Positions shown one after another, separated by a space.
pub fn format_positions(positions: &Vec<Position>) -> (s: String)
    requires
        amounts_wf(positions@),
    ensures
        s@ == join(position_texts(positions@), " "@),
{
    let mut parts: Vec<String> = Vec::new();
    let mut i: usize = 0;
    while i < positions.len()
        invariant
            i <= positions.len(),
            amounts_wf(positions@),
            views(parts@) == position_texts(positions@).take(i as int),
        decreases positions.len() - i,
    {
        let t = format_amount(positions[i].amount, positions[i].currency.as_str());
        let ghost before = parts@;
        parts.push(t);
        assert(views(parts@) =~= views(before).push(t@));
        i = i + 1;
        assert(position_texts(positions@).take(i as int) =~= position_texts(positions@).take(i - 1).push(
            position_texts(positions@)[i - 1],
        ));
    }
    assert(position_texts(positions@).take(positions.len() as int) =~= position_texts(positions@));
    join_strings(&parts, " ")
}

// ---------------------------------------------------------------------------
// The report
// ---------------------------------------------------------------------------

/// What the balance command shows: the rows, and with `--total` the grand
/// total.
#[derive(Debug)]
pub struct BalanceReport {
    pub rows: Vec<BalanceRow>,
    pub total: Option<BalanceTotals>,
}

/// Why the balance rows could not be processed.
#[derive(Debug)]
pub enum BalanceError {
    /// An `--amount` argument is not an amount filter.
    Filter(UtilsError),
    /// A sum went past `rust_decimal`'s range.
    Overflow,
}

/// The rows after the `--amount` filters (all of them when there are none).
pub open spec fn after_filters(args: Seq<Seq<char>>, rows: Seq<BalanceRow>) -> Seq<BalanceRow> {
    if args.len() == 0 {
        rows
    } else {
        passing_rows(rows, filters_of(args))
    }
}

/// `out` is `rows` expanded to every parent account with `--hierarchy`,
/// else `rows` itself.
pub open spec fn hierarchy_step(hierarchy: bool, rows: Seq<BalanceRow>, out: Seq<BalanceRow>) -> bool {
    if hierarchy {
        group_report(out, hierarchy_events(rows), hierarchy_converted_events(rows))
    } else {
        out == rows
    }
}

/// `out` is `rows` limited by `--depth d`: the rows of fewer than `d`
/// separators, after collapsing deeper accounts into their level-`d`
/// ancestors unless the rows are a hierarchy (whose parents already carry
/// the sums).
pub open spec fn depth_step(hierarchy: bool, depth: Option<u32>, rows: Seq<BalanceRow>, out: Seq<BalanceRow>) -> bool {
    match depth {
        None => out == rows,
        Some(d) => if hierarchy {
            out == shallow_rows(rows, d)
        } else {
            exists|c: Seq<BalanceRow>|
                group_report(c, collapse_events(rows, d as nat), collapse_converted_events(rows, d as nat))
                    && out == shallow_rows(c, d)
        },
    }
}

/// The rows after `--zero`: those with some amount that is not zero.
pub open spec fn zero_step(zero: bool, rows: Seq<BalanceRow>) -> Seq<BalanceRow> {
    if zero {
        nonzero_rows(rows)
    } else {
        rows
    }
}

/// `out` and `total` are what the balance command shows for the query
/// rows `rows`: filtered by amount, expanded to a hierarchy, limited in
/// depth and stripped of zero balances as the options say, with the grand
/// total of what is shown when `--total` asks for it.
pub open spec fn balance_outcome(opts: &CommonOptions, rows: Seq<BalanceRow>, out: Seq<BalanceRow>, total: Option<BalanceTotals>) -> bool {
    exists|h: Seq<BalanceRow>, d: Seq<BalanceRow>|
        {
            &&& hierarchy_step(opts.hierarchy, after_filters(views(opts.amount@), rows), h)
            &&& depth_step(opts.hierarchy, opts.depth, h, d)
            &&& out == zero_step(opts.zero, d)
            &&& if opts.total {
                grand_total(out, opts.hierarchy, opts.depth, total)
            } else {
                total is None
            }
        }
}

/// Some sum that the balance command makes overflows: in the hierarchy, in
/// depth collapse, or in the grand total.
pub open spec fn balance_overflows(opts: &CommonOptions, rows: Seq<BalanceRow>) -> bool {
    let f = after_filters(views(opts.amount@), rows);
    ||| opts.hierarchy && !(events_defined(hierarchy_events(f)) && events_defined(hierarchy_converted_events(f)))
    ||| exists|h: Seq<BalanceRow>|
        hierarchy_step(opts.hierarchy, f, h) && {
            ||| !opts.hierarchy && opts.depth is Some && !(events_defined(
                collapse_events(h, opts.depth->0 as nat),
            ) && events_defined(collapse_converted_events(h, opts.depth->0 as nat)))
            ||| exists|d: Seq<BalanceRow>|
                depth_step(opts.hierarchy, opts.depth, h, d) && opts.total && {
                    let z = zero_step(opts.zero, d);
                    !(sums_defined(total_items(z, min_separators(z), opts.hierarchy, opts.depth)) && sums_defined(
                        total_converted_items(z, min_separators(z), opts.hierarchy, opts.depth),
                    ))
                }
        }
}

/// The amounts of the totals are within `rust_decimal`'s range.
pub open spec fn totals_wf(t: Option<BalanceTotals>) -> bool {
    t matches Some(t) ==> amounts_wf(t.positions@) && (t.converted_positions matches Some(cs) ==> amounts_wf(cs@))
}

/// Processes the query rows as the options say (see [`balance_outcome`]).
pub fn process_rows(opts: &CommonOptions, rows: Vec<BalanceRow>) -> (r: Result<BalanceReport, BalanceError>)
    requires
        rows_wf(rows@),
    ensures
        match r {
            Ok(rep) => first_invalid_filter(views(opts.amount@)) is None && balance_outcome(opts, rows@, rep.rows@, rep.total)
                && rows_wf(rep.rows@) && totals_wf(rep.total),
            Err(BalanceError::Filter(UtilsError::InvalidAmountFilter(m))) => first_invalid_filter(views(opts.amount@)) matches Some(k)
                && m@ == opts.amount@[k]@,
            Err(BalanceError::Overflow) => first_invalid_filter(views(opts.amount@)) is None && balance_overflows(opts, rows@),
        },
{
    let ghost input = rows@;
    let ghost args = views(opts.amount@);
    let filtered = if opts.amount.len() > 0 {
        match apply_amount_filters(rows, &opts.amount) {
            Ok(out) => out,
            Err(e) => return Err(BalanceError::Filter(e)),
        }
    } else {
        proof {
            assert(first_invalid_filter(args) is None) by {
                assert(args.len() == 0);
            }
        }
        rows
    };
    let ghost f = filtered@;
    assert(f == after_filters(args, input));
    assert(rows_wf(f));
    let hier = if opts.hierarchy {
        match apply_hierarchy(filtered) {
            Ok(out) => out,
            Err(_) => return Err(BalanceError::Overflow),
        }
    } else {
        filtered
    };
    let ghost h = hier@;
    assert(hierarchy_step(opts.hierarchy, f, h));
    let depth_rows = match opts.depth {
        Some(d) => {
            let collapsed = if !opts.hierarchy {
                match apply_depth_collapse(hier, d) {
                    Ok(out) => out,
                    Err(_) => {
                        assert(balance_overflows(opts, input)) by {
                            assert(hierarchy_step(opts.hierarchy, f, h));
                        }
                        return Err(BalanceError::Overflow);
                    },
                }
            } else {
                hier
            };
            let ghost c = collapsed@;
            let out = retain_shallow(collapsed, d);
            proof {
                if !opts.hierarchy {
                    assert(group_report(c, collapse_events(h, d as nat), collapse_converted_events(h, d as nat))
                        && out@ == shallow_rows(c, d));
                }
            }
            out
        },
        None => hier,
    };
    let ghost d = depth_rows@;
    assert(depth_step(opts.hierarchy, opts.depth, h, d));
    let shown = if opts.zero {
        retain_nonzero(depth_rows)
    } else {
        depth_rows
    };
    let ghost z = shown@;
    assert(z == zero_step(opts.zero, d));
    assert(rows_wf(z));
    let total = if opts.total {
        match compute_grand_total(&shown, opts.hierarchy, opts.depth) {
            Ok(t) => t,
            Err(_) => {
                assert(balance_overflows(opts, input)) by {
                    assert(hierarchy_step(opts.hierarchy, f, h));
                    assert(depth_step(opts.hierarchy, opts.depth, h, d));
                }
                return Err(BalanceError::Overflow);
            },
        }
    } else {
        None
    };
    assert(balance_outcome(opts, input, shown@, total)) by {
        assert(hierarchy_step(opts.hierarchy, after_filters(views(opts.amount@), input), h));
        assert(depth_step(opts.hierarchy, opts.depth, h, d));
    }
    Ok(BalanceReport { rows: shown, total })
}

/// Some positions as one cell: their texts separated by spaces.
pub open spec fn positions_cell(ps: Seq<Position>) -> Seq<char> {
    join(position_texts(ps), " "@)
}

/// The positions of an optional list (none when it is absent).
pub open spec fn or_empty(ps: Option<Vec<Position>>) -> Seq<Position> {
    match ps {
        Some(v) => v@,
        None => Seq::empty(),
    }
}

/// The header: account and balance, and the converted total in the
/// `--exchange` currency (upper-cased).
pub open spec fn balance_header(exchange: Option<Seq<char>>) -> Seq<Seq<char>> {
    seq!["Account"@, "Balance"@] + match exchange {
        Some(x) => seq!["Total ("@ + unicode_upper(x) + ")"@],
        None => Seq::empty(),
    }
}

/// The cells of a row: the account, its balance and, with `--exchange`,
/// its converted balance.
pub open spec fn balance_cells(r: BalanceRow, exchange: bool) -> Seq<Seq<char>> {
    seq![r.account@, positions_cell(r.positions@)] + if exchange {
        seq![positions_cell(or_empty(r.converted_positions))]
    } else {
        Seq::empty()
    }
}

/// The separator line above the total.
pub open spec fn separator_cells(exchange: bool) -> Seq<Seq<char>> {
    seq!["-------------------"@, "-------------------"@] + if exchange {
        seq!["-------------------"@]
    } else {
        Seq::empty()
    }
}

/// The total line.
pub open spec fn total_cells(t: BalanceTotals, exchange: bool) -> Seq<Seq<char>> {
    seq!["Total"@, positions_cell(t.positions@)] + if exchange {
        seq![positions_cell(or_empty(t.converted_positions))]
    } else {
        Seq::empty()
    }
}

/// The rows of the balance table: one per account, then, when there is a
/// total, a separator line and the total.
pub open spec fn balance_table_rows(rows: Seq<BalanceRow>, total: Option<BalanceTotals>, exchange: bool) -> Seq<Seq<Seq<char>>> {
    rows.map_values(|r: BalanceRow| balance_cells(r, exchange)) + match total {
        Some(t) => seq![separator_cells(exchange), total_cells(t, exchange)],
        None => Seq::empty(),
    }
}

fn converted_cell(ps: &Option<Vec<Position>>) -> (s: String)
    requires
        ps matches Some(v) ==> amounts_wf(v@),
    ensures
        s@ == positions_cell(or_empty(*ps)),
{
    match ps {
        Some(v) => format_positions(v),
        None => {
            let empty: Vec<Position> = Vec::new();
            assert(position_texts(empty@) =~= Seq::<Seq<char>>::empty());
            format_positions(&empty)
        },
    }
}

/// The table that the balance command prints for a report.
pub fn balance_table(report: &BalanceReport, exchange: &Option<String>) -> (t: Table)
    requires
        rows_wf(report.rows@),
        totals_wf(report.total),
    ensures
        t.view_cells() == (
            balance_header(opt_view_ref(exchange)),
            balance_table_rows(report.rows@, report.total, exchange is Some),
        ),
{
    let ex = exchange.is_some();
    let mut header: Vec<String> = Vec::new();
    header.push(String::from_str("Account"));
    header.push(String::from_str("Balance"));
    if let Some(x) = exchange {
        let upper = to_uppercase(x.as_str());
        let mut h = String::from_str("Total (");
        h.append(upper.as_str());
        h.append(")");
        header.push(h);
    }
    assert(views(header@) =~= balance_header(opt_view_ref(exchange)));
    let mut rows: Vec<Vec<String>> = Vec::new();
    let mut i: usize = 0;
    while i < report.rows.len()
        invariant
            i <= report.rows.len(),
            rows_wf(report.rows@),
            ex == exchange is Some,
            cells_view(rows@) == report.rows@.take(i as int).map_values(|r: BalanceRow| balance_cells(r, ex)),
        decreases report.rows.len() - i,
    {
        let r = &report.rows[i];
        assert(row_wf(*r));
        let mut cells: Vec<String> = Vec::new();
        cells.push(r.account.clone());
        cells.push(format_positions(&r.positions));
        if ex {
            cells.push(converted_cell(&r.converted_positions));
        }
        assert(views(cells@) =~= balance_cells(*r, ex));
        let ghost before = rows@;
        rows.push(cells);
        assert(cells_view(rows@) =~= cells_view(before).push(views(cells@)));
        i = i + 1;
        assert(report.rows@.take(i as int) =~= report.rows@.take(i - 1).push(report.rows@[i - 1]));
    }
    assert(report.rows@.take(report.rows.len() as int) =~= report.rows@);
    if let Some(t) = &report.total {
        let mut sep: Vec<String> = Vec::new();
        sep.push(String::from_str("-------------------"));
        sep.push(String::from_str("-------------------"));
        if ex {
            sep.push(String::from_str("-------------------"));
        }
        assert(views(sep@) =~= separator_cells(ex));
        let mut cells: Vec<String> = Vec::new();
        cells.push(String::from_str("Total"));
        cells.push(format_positions(&t.positions));
        if ex {
            cells.push(converted_cell(&t.converted_positions));
        }
        assert(views(cells@) =~= total_cells(*t, ex));
        let ghost before = rows@;
        rows.push(sep);
        rows.push(cells);
        assert(cells_view(rows@) =~= cells_view(before) + seq![separator_cells(ex), total_cells(*t, ex)]);
    }
    let t = Table { header, rows };
    assert(cells_view(t.rows@) =~= balance_table_rows(report.rows@, report.total, ex));
    t
}

// ---------------------------------------------------------------------------
// Laws of the hierarchy
// ---------------------------------------------------------------------------

/// The positions of the rows at or below account `a` (the rows that have
/// `a` among their ancestors), in row order.
pub open spec fn positions_below(rows: Seq<BalanceRow>, a: Seq<char>) -> Seq<(Seq<char>, Decimal)>
    decreases rows.len(),
{
    if rows.len() == 0 {
        Seq::empty()
    } else {
        positions_below(rows.drop_last(), a) + if ancestors(rows.last().account@).contains(a) {
            positions_view(rows.last().positions@)
        } else {
            Seq::empty()
        }
    }
}

/// An account's ancestors grow longer from the first to the last, so no
/// two are the same.
pub proof fn lemma_ancestors_lengths(account: Seq<char>, d: int, e: int)
    requires
        0 <= d < e < ancestors(account).len(),
    ensures
        ancestors(account)[d].len() < ancestors(account)[e].len(),
    decreases e - d,
{
    reveal_strlit(":");
    let parts = split_char(account, ':');
    let t = parts.take(e + 1);
    assert(t.drop_last() =~= parts.take(e));
    assert(join(t, ":"@) == join(parts.take(e), ":"@) + ":"@ + parts[e]);
    assert(ancestors(account)[e] == join(t, ":"@));
    assert(ancestors(account)[e - 1] == join(parts.take(e), ":"@));
    if d < e - 1 {
        lemma_ancestors_lengths(account, d, e - 1);
    }
}

proof fn lemma_brought_named(names: Seq<Seq<char>>, ps: Seq<(Seq<char>, Decimal)>, a: Seq<char>)
    requires
        forall|i: int, j: int| 0 <= i < j < names.len() ==> names[i] != names[j],
    ensures
        brought_to(named_events(names, ps), a) == if names.contains(a) {
            ps
        } else {
            Seq::empty()
        },
    decreases names.len(),
{
    if names.len() > 0 {
        let d = names.drop_last();
        assert(named_events(names, ps).drop_last() =~= named_events(d, ps));
        lemma_brought_named(d, ps, a);
        if names.last() == a {
            assert(!d.contains(a)) by {
                if d.contains(a) {
                    let j = choose|j: int| 0 <= j < d.len() && d[j] == a;
                    assert(names[j] == names[names.len() - 1]);
                }
            }
            assert(names.contains(a)) by {
                assert(names[names.len() - 1] == a);
            }
            assert(Seq::<(Seq<char>, Decimal)>::empty() + ps =~= ps);
        } else {
            assert(d.contains(a) == names.contains(a)) by {
                if names.contains(a) {
                    let j = choose|j: int| 0 <= j < names.len() && names[j] == a;
                    assert(d[j] == a);
                }
                if d.contains(a) {
                    let j = choose|j: int| 0 <= j < d.len() && d[j] == a;
                    assert(names[j] == a);
                }
            }
            let x: Seq<(Seq<char>, Decimal)> = if d.contains(a) {
                ps
            } else {
                Seq::empty()
            };
            assert(x + Seq::<(Seq<char>, Decimal)>::empty() =~= x);
        }
    } else {
        assert(named_events(names, ps) =~= Seq::<(Seq<char>, Seq<(Seq<char>, Decimal)>)>::empty());
    }
}

/// In the hierarchy, what an account sums is exactly the positions of the
/// rows at or below it, each row once and in row order: a parent's balance
/// aggregates those of all accounts beneath it.
pub proof fn law_hierarchy_sums_rows_below(rows: Seq<BalanceRow>, a: Seq<char>)
    ensures
        brought_to(hierarchy_events(rows), a) == positions_below(rows, a),
    decreases rows.len(),
{
    if rows.len() > 0 {
        let last = rows.last();
        law_hierarchy_sums_rows_below(rows.drop_last(), a);
        lemma_brought_append(
            hierarchy_events(rows.drop_last()),
            named_events(ancestors(last.account@), positions_view(last.positions@)),
            a,
        );
        assert forall|i: int, j: int| 0 <= i < j < ancestors(last.account@).len() implies ancestors(
            last.account@,
        )[i] != ancestors(last.account@)[j] by {
            lemma_ancestors_lengths(last.account@, i, j);
        }
        lemma_brought_named(ancestors(last.account@), positions_view(last.positions@), a);
    }
}

/// The accounts of the hierarchy are exactly the ancestors of the rows'
/// accounts (each account counting as its own ancestor).
pub proof fn law_hierarchy_accounts(rows: Seq<BalanceRow>, a: Seq<char>)
    ensures
        key_set(hierarchy_events(rows)).contains(a) <==> exists|j: int|
            0 <= j < rows.len() && ancestors(#[trigger] rows[j].account@).contains(a),
    decreases rows.len(),
{
    if rows.len() > 0 {
        let d = rows.drop_last();
        let last = rows.last();
        let ne = named_events(ancestors(last.account@), positions_view(last.positions@));
        law_hierarchy_accounts(d, a);
        let he = hierarchy_events(rows);
        assert(he == hierarchy_events(d) + ne);
        if key_set(he).contains(a) {
            let k = choose|k: int| 0 <= k < he.len() && he[k].0 == a;
            if k < hierarchy_events(d).len() {
                assert(he[k] == hierarchy_events(d)[k]);
                assert(key_set(hierarchy_events(d)).contains(a));
                let j = choose|j: int| 0 <= j < d.len() && ancestors(#[trigger] d[j].account@).contains(a);
                assert(rows[j] == d[j]);
            } else {
                let m = k - hierarchy_events(d).len();
                assert(he[k] == ne[m]);
                assert(ancestors(last.account@)[m] == a);
                assert(rows[rows.len() - 1] == last);
                assert(ancestors(rows[rows.len() - 1].account@).contains(a));
            }
        }
        if exists|j: int| 0 <= j < rows.len() && ancestors(#[trigger] rows[j].account@).contains(a) {
            let j = choose|j: int| 0 <= j < rows.len() && ancestors(#[trigger] rows[j].account@).contains(a);
            if j < d.len() {
                assert(rows[j] == d[j]);
                assert(key_set(hierarchy_events(d)).contains(a));
                let k = choose|k: int| 0 <= k < hierarchy_events(d).len() && hierarchy_events(d)[k].0 == a;
                assert(he[k] == hierarchy_events(d)[k]);
            } else {
                let m = choose|m: int| 0 <= m < ancestors(last.account@).len() && ancestors(last.account@)[m] == a;
                assert(he[hierarchy_events(d).len() + m] == ne[m]);
            }
        }
    }
}

// ---------------------------------------------------------------------------
// Laws of depth collapse
// ---------------------------------------------------------------------------

/// With `--depth d` (`d` at least one), an account is collapsed onto one
/// of fewer than `d` separators: at most `d` segments.
pub proof fn law_collapse_key_depth(account: Seq<char>, depth: nat)
    requires
        depth >= 1,
    ensures
        separators(collapse_key(account, depth)) < depth,
{
    reveal_strlit(":");
    assert(":"@ =~= seq![':']);
    let parts = split_char(account, ':');
    lemma_split_char_count(account, ':');
    if parts.len() > depth {
        let t = parts.take(depth as int);
        assert forall|i: int| 0 <= i < t.len() implies count_char(#[trigger] t[i], ':') == 0 by {
            assert(t[i] == parts[i]);
        }
        lemma_count_char_join(t, ':');
    }
}

/// The accounts that depth collapse yields are collapsed accounts of the
/// rows.
pub proof fn lemma_collapse_keys(rows: Seq<BalanceRow>, depth: nat, a: Seq<char>)
    requires
        key_set(collapse_events(rows, depth)).contains(a),
    ensures
        exists|j: int| 0 <= j < rows.len() && collapse_key(#[trigger] rows[j].account@, depth) == a,
    decreases rows.len(),
{
    let ev = collapse_events(rows, depth);
    let d = rows.drop_last();
    let k = choose|k: int| 0 <= k < ev.len() && ev[k].0 == a;
    if k == ev.len() - 1 {
        assert(rows[rows.len() - 1] == rows.last());
    } else {
        assert(ev[k] == collapse_events(d, depth)[k]);
        assert(key_set(collapse_events(d, depth)).contains(a));
        lemma_collapse_keys(d, depth, a);
        let j = choose|j: int| 0 <= j < d.len() && collapse_key(#[trigger] d[j].account@, depth) == a;
        assert(rows[j] == d[j]);
    }
}

/// Depth collapse limits the tree: with `--depth d` (`d` at least one),
/// every account of the result has fewer than `d` separators, so the
/// filter on depth that follows keeps every collapsed row.
pub proof fn law_collapse_limits_depth(rows: Seq<BalanceRow>, depth: u32, out: Seq<BalanceRow>)
    requires
        depth >= 1,
        group_report(out, collapse_events(rows, depth as nat), collapse_converted_events(rows, depth as nat)),
    ensures
        forall|i: int| 0 <= i < out.len() ==> separators((#[trigger] out[i]).account@) < depth,
        shallow_rows(out, depth) == out,
{
    assert forall|i: int| 0 <= i < out.len() implies separators((#[trigger] out[i]).account@) < depth by {
        assert(accounts_of(out)[i] == out[i].account@);
        assert(accounts_of(out).to_set().contains(out[i].account@));
        lemma_collapse_keys(rows, depth as nat, out[i].account@);
        let j = choose|j: int| 0 <= j < rows.len() && collapse_key(#[trigger] rows[j].account@, depth as nat) == out[i].account@;
        law_collapse_key_depth(rows[j].account@, depth as nat);
    }
    lemma_filter_keeps_all(out, depth);
}

proof fn lemma_filter_keeps_all(rows: Seq<BalanceRow>, depth: u32)
    requires
        forall|i: int| 0 <= i < rows.len() ==> separators((#[trigger] rows[i]).account@) < depth,
    ensures
        shallow_rows(rows, depth) == rows,
    decreases rows.len(),
{
    reveal(Seq::filter);
    if rows.len() > 0 {
        let d = rows.drop_last();
        assert forall|i: int| 0 <= i < d.len() implies separators((#[trigger] d[i]).account@) < depth by {
            assert(d[i] == rows[i]);
        }
        lemma_filter_keeps_all(d, depth);
        assert(rows[rows.len() - 1] == rows.last());
        assert(d.push(rows.last()) =~= rows);
    } else {
        assert(rows.filter(|r: BalanceRow| separators(r.account@) < depth) =~= rows);
    }
}


/// What each operator of an amount filter means, as numbers: a balance
/// `a` passes `op v` exactly when `a > v`, `a >= v`, `a < v`, `a <= v`,
/// `a == v` or `a != v` holds of their values `mantissa / 10^scale`
/// (compared here with both sides brought to a common scale).
pub proof fn law_filter_operators(a: Decimal, v: Decimal)
    ensures
        compares(">"@, a, v) <==> a.mantissa * pow10(v.scale as nat) > v.mantissa * pow10(a.scale as nat),
        compares(">="@, a, v) <==> a.mantissa * pow10(v.scale as nat) >= v.mantissa * pow10(a.scale as nat),
        compares("<"@, a, v) <==> a.mantissa * pow10(v.scale as nat) < v.mantissa * pow10(a.scale as nat),
        compares("<="@, a, v) <==> a.mantissa * pow10(v.scale as nat) <= v.mantissa * pow10(a.scale as nat),
        compares("="@, a, v) <==> a.mantissa * pow10(v.scale as nat) == v.mantissa * pow10(a.scale as nat),
        compares("!="@, a, v) <==> a.mantissa * pow10(v.scale as nat) != v.mantissa * pow10(a.scale as nat),
{
    reveal_strlit(">");
    reveal_strlit(">=");
    reveal_strlit("<");
    reveal_strlit("<=");
    reveal_strlit("=");
    reveal_strlit("!=");
    assert(">"@.len() == 1 && ">="@.len() == 2 && "<"@.len() == 1 && "<="@.len() == 2 && "="@.len() == 1);
    assert(">"@[0] == '>' && "<"@[0] == '<' && "="@[0] == '=' && ">="@[0] == '>' && "<="@[0] == '<' && "!="@[0] == '!');
    assert(">="@ != ">"@ && "<"@ != ">"@ && "<"@ != ">="@ && "<="@ != ">"@ && "<="@ != ">="@ && "<="@ != "<"@);
    assert("="@ != ">"@ && "="@ != ">="@ && "="@ != "<"@ && "="@ != "<="@);
    assert("!="@ != ">"@ && "!="@ != ">="@ && "!="@ != "<"@ && "!="@ != "<="@ && "!="@ != "="@);
}

/// The amount filters keep exactly the rows of the input that pass every
/// filter, in their order.
pub proof fn law_amount_filters_keep(rows: Seq<BalanceRow>, fs: Seq<(Seq<char>, (int, int), Option<Seq<char>>)>, r: BalanceRow)
    ensures
        passing_rows(rows, fs).contains(r) <==> rows.contains(r) && forall|k: int|
            0 <= k < fs.len() ==> filter_met(r, #[trigger] fs[k]),
{
    let pred = |x: BalanceRow| passes_filters(x, fs);
    if passing_rows(rows, fs).contains(r) {
        rows.lemma_filter_contains_rev(pred, r);
        let i = choose|i: int| 0 <= i < rows.filter(pred).len() && rows.filter(pred)[i] == r;
        rows.lemma_filter_pred(pred, i);
    }
    if rows.contains(r) && passes_filters(r, fs) {
        let i = choose|i: int| 0 <= i < rows.len() && rows[i] == r;
        rows.lemma_filter_contains(pred, i);
    }
}

/// A filter is met by a row exactly when some position of the row is in
/// the filter's currency (any currency when it names none) and its amount
/// compares with the filter's value as the operator says.
pub proof fn law_filter_met(r: BalanceRow, f: (Seq<char>, (int, int), Option<Seq<char>>))
    ensures
        filter_met(r, f) <==> exists|j: int|
            0 <= j < r.positions@.len() && (f.2 matches Some(c) ==> (#[trigger] r.positions@[j]).currency@ == c)
                && compares(f.0, r.positions@[j].amount, decimal_of(f.1.0, f.1.1)),
{
    if filter_met(r, f) {
        let j = choose|j: int| 0 <= j < r.positions@.len() && passes_filter(pos_view(#[trigger] r.positions@[j]), f);
        assert(passes_filter(pos_view(r.positions@[j]), f));
    }
    if exists|j: int|
        0 <= j < r.positions@.len() && (f.2 matches Some(c) ==> (#[trigger] r.positions@[j]).currency@ == c) && compares(
            f.0,
            r.positions@[j].amount,
            decimal_of(f.1.0, f.1.1),
        ) {
        let j = choose|j: int|
            0 <= j < r.positions@.len() && (f.2 matches Some(c) ==> (#[trigger] r.positions@[j]).currency@ == c)
                && compares(f.0, r.positions@[j].amount, decimal_of(f.1.0, f.1.1));
        assert(passes_filter(pos_view(r.positions@[j]), f));
    }
}

/// A row that the grand total does not count (with `--hierarchy`, one below
/// the top level) adds nothing to it: neither amounts nor converted amounts.
pub proof fn law_uncounted_row_adds_nothing(rows: Seq<BalanceRow>, r: BalanceRow, top: nat, hierarchy: bool, depth: Option<u32>)
    requires
        !in_total(r, top, hierarchy, depth),
    ensures
        total_items(rows.push(r), top, hierarchy, depth) == total_items(rows, top, hierarchy, depth),
        total_converted_items(rows.push(r), top, hierarchy, depth) == total_converted_items(rows, top, hierarchy, depth),
{
    assert(rows.push(r).drop_last() =~= rows);
    assert(rows.push(r).last() == r);
    assert(total_items(rows, top, hierarchy, depth) + Seq::<(Seq<char>, Decimal)>::empty() =~= total_items(
        rows,
        top,
        hierarchy,
        depth,
    ));
    assert(total_converted_items(rows, top, hierarchy, depth) + Seq::<(Seq<char>, Decimal)>::empty()
        =~= total_converted_items(rows, top, hierarchy, depth));
}

/// The grand total, converted amounts included, is taken from the counted
/// rows only (with `--hierarchy` the top-level ones): leaving out every row
/// that is not counted changes neither the amounts nor the converted
/// amounts that are summed.
pub proof fn law_total_from_counted_rows(rows: Seq<BalanceRow>, top: nat, hierarchy: bool, depth: Option<u32>)
    ensures
        total_items(rows, top, hierarchy, depth) == total_items(
            rows.filter(|r: BalanceRow| in_total(r, top, hierarchy, depth)),
            top,
            hierarchy,
            depth,
        ),
        total_converted_items(rows, top, hierarchy, depth) == total_converted_items(
            rows.filter(|r: BalanceRow| in_total(r, top, hierarchy, depth)),
            top,
            hierarchy,
            depth,
        ),
    decreases rows.len(),
{
    let pred = |r: BalanceRow| in_total(r, top, hierarchy, depth);
    reveal(Seq::filter);
    if rows.len() > 0 {
        let prev = rows.drop_last();
        law_total_from_counted_rows(prev, top, hierarchy, depth);
        let fp = prev.filter(pred);
        assert(rows.filter(pred) == if pred(rows.last()) { fp.push(rows.last()) } else { fp });
        if pred(rows.last()) {
            assert(fp.push(rows.last()).drop_last() =~= fp);
        } else {
            assert(total_items(prev, top, hierarchy, depth) + Seq::<(Seq<char>, Decimal)>::empty() =~= total_items(
                prev,
                top,
                hierarchy,
                depth,
            ));
            assert(total_converted_items(prev, top, hierarchy, depth) + Seq::<(Seq<char>, Decimal)>::empty()
                =~= total_converted_items(prev, top, hierarchy, depth));
        }
    } else {
        assert(rows.filter(pred) =~= Seq::<BalanceRow>::empty());
    }
}


/// Which rows the grand total counts: with `--hierarchy` those whose
/// account has exactly `top` colons, with `--depth d` those with fewer than
/// `d` colons, otherwise every row.
pub proof fn law_counted_rows(r: BalanceRow, top: nat, depth: Option<u32>)
    ensures
        in_total(r, top, true, depth) <==> count_char(r.account@, ':') == top,
        depth matches Some(d) ==> (in_total(r, top, false, depth) <==> count_char(r.account@, ':') < d),
        depth is None ==> in_total(r, top, false, depth),
{
}

/// The top level of a non-empty list of rows is the fewest colons that any
/// of its accounts has.
pub proof fn law_top_level_is_fewest_colons(rows: Seq<BalanceRow>)
    requires
        rows.len() > 0,
    ensures
        forall|i: int| 0 <= i < rows.len() ==> min_separators(rows) <= count_char(#[trigger] rows[i].account@, ':'),
        exists|i: int| 0 <= i < rows.len() && min_separators(rows) == count_char(#[trigger] rows[i].account@, ':'),
    decreases rows.len(),
{
    if rows.len() == 1 {
        assert(min_separators(rows) == count_char(rows[0].account@, ':'));
    } else {
        let prev = rows.drop_last();
        law_top_level_is_fewest_colons(prev);
        assert forall|i: int| 0 <= i < rows.len() implies min_separators(rows) <= count_char(
            #[trigger] rows[i].account@,
            ':',
        ) by {
            if i < prev.len() {
                assert(rows[i] == prev[i]);
            }
        }
        if count_char(rows.last().account@, ':') < min_separators(prev) {
            assert(min_separators(rows) == count_char(rows[rows.len() - 1].account@, ':'));
        } else {
            let k = choose|k: int| 0 <= k < prev.len() && min_separators(prev) == count_char(#[trigger] prev[k].account@, ':');
            assert(rows[k] == prev[k]);
            assert(min_separators(rows) == count_char(rows[k].account@, ':'));
        }
    }
}

/// `--depth d` keeps exactly the rows of the input whose account has fewer
/// than `d` colons, and `--zero` exactly those with some amount that is not
/// zero.
pub proof fn law_depth_and_zero_keep(rows: Seq<BalanceRow>, depth: u32, r: BalanceRow)
    ensures
        shallow_rows(rows, depth).contains(r) <==> rows.contains(r) && count_char(r.account@, ':') < depth,
        nonzero_rows(rows).contains(r) <==> rows.contains(r) && exists|j: int|
            0 <= j < r.positions@.len() && (#[trigger] r.positions@[j]).amount.mantissa != 0,
{
    let p1 = |x: BalanceRow| separators(x.account@) < depth;
    let p2 = |x: BalanceRow| has_nonzero(x);
    if shallow_rows(rows, depth).contains(r) {
        rows.lemma_filter_contains_rev(p1, r);
        let i = choose|i: int| 0 <= i < rows.filter(p1).len() && rows.filter(p1)[i] == r;
        rows.lemma_filter_pred(p1, i);
    }
    if rows.contains(r) && count_char(r.account@, ':') < depth {
        let i = choose|i: int| 0 <= i < rows.len() && rows[i] == r;
        rows.lemma_filter_contains(p1, i);
    }
    assert(pow10(0) == 1);
    assert(has_nonzero(r) <==> exists|j: int|
        0 <= j < r.positions@.len() && (#[trigger] r.positions@[j]).amount.mantissa != 0) by {
        if has_nonzero(r) {
            let j = choose|j: int| 0 <= j < r.positions@.len() && !dec_eq(#[trigger] r.positions@[j].amount, zero_dec());
            assert(r.positions@[j].amount.mantissa != 0);
        }
        if exists|j: int| 0 <= j < r.positions@.len() && (#[trigger] r.positions@[j]).amount.mantissa != 0 {
            let j = choose|j: int| 0 <= j < r.positions@.len() && (#[trigger] r.positions@[j]).amount.mantissa != 0;
            let a = r.positions@[j].amount;
            assert(!dec_eq(a, zero_dec())) by {
                assert(zero_dec().mantissa * pow10(a.scale as nat) == 0);
                assert(a.mantissa * pow10(0) == a.mantissa);
            }
        }
    }
    if nonzero_rows(rows).contains(r) {
        rows.lemma_filter_contains_rev(p2, r);
        let i = choose|i: int| 0 <= i < rows.filter(p2).len() && rows.filter(p2)[i] == r;
        rows.lemma_filter_pred(p2, i);
    }
    if rows.contains(r) && has_nonzero(r) {
        let i = choose|i: int| 0 <= i < rows.len() && rows[i] == r;
        rows.lemma_filter_contains(p2, i);
    }
}

/// Naming currencies with `--currency` restricts the balance query to them:
/// one currency `C` gives the condition `currency = 'C'`, several give one
/// condition that accepts each of them.
pub proof fn law_balance_currency_restricted(opts: &CommonOptions)
    ensures
        currency_list(views(opts.currency@), true).len() == 1 ==> balance_where(opts).contains(
            "currency = '"@ + currency_list(views(opts.currency@), true)[0] + "'"@,
        ),
        currency_list(views(opts.currency@), true).len() > 1 ==> balance_where(opts).contains(
            "("@ + join(
                currency_list(views(opts.currency@), true).map_values(|c: Seq<char>| "currency = '"@ + c + "'"@),
                " OR "@,
            ) + ")"@,
        ),
{
    let cs = currency_list(views(opts.currency@), true);
    let pre = account_clauses(views(opts.account@)) + date_clauses(
        opt_view_ref(&opts.begin),
        opt_view_ref(&opts.end),
        opt_view_ref(&opts.date_range),
    );
    let w = balance_where(opts);
    if cs.len() >= 1 {
        assert(w[pre.len() as int] == currency_eq_clauses(cs)[0]);
    }
}

} // verus!

//! `assert`: balance assertions from the `#balances` table.
use vstd::prelude::*;
use crate::bql::{
    account_clauses, amount_clauses, currency_list, currency_list_exec, date_clauses, limit_clause, order_by,
    order_by_exec, push_account_clauses, push_amount_clauses, push_date_clauses, push_limit, push_where, range_ok,
    where_part, wrap, wrap_each, opt_view_ref, SortNames,
};
use crate::cli::CommonOptions;
use crate::decimal::Decimal;
use crate::json::Json;
use crate::numfmt::{format_normalized, normalized_text};
use crate::report::{cells_view, Table};
use crate::rows::{dated_amount_exec, dated_amount_spec, lemma_map_results_err_extends, lemma_map_results_step, map_results};
use crate::text::{contains_string, join, join_strings, views};

verus! {

/// `amount.currency = 'C'` for one currency, `amount.currency IN ('A', 'B')`
/// for several, nothing for none.
pub open spec fn assert_currency_clauses(cs: Seq<Seq<char>>) -> Seq<Seq<char>> {
    if cs.len() == 0 {
        Seq::empty()
    } else if cs.len() == 1 {
        seq!["amount.currency = '"@ + cs[0] + "'"@]
    } else {
        seq!["amount.currency IN ("@ + join(cs.map_values(|c: Seq<char>| "'"@ + c + "'"@), ", "@) + ")"@]
    }
}

/// The `WHERE` clauses of the assertion query.
pub open spec fn assert_where(opts: &CommonOptions) -> Seq<Seq<char>> {
    account_clauses(views(opts.account@)) + date_clauses(opt_view_ref(&opts.begin), opt_view_ref(&opts.end), opt_view_ref(&opts.date_range))
        + amount_clauses(views(opts.amount@), "amount.number"@, "amount.currency"@)
        + assert_currency_clauses(currency_list(views(opts.currency@), true))
}

/// The assertion query; ordered only when `--sort` is given.
pub open spec fn assert_query(opts: &CommonOptions) -> Seq<char> {
    "SELECT date, account, amount FROM #balances"@ + where_part(assert_where(opts)) + match opts.sort {
        Some(s) => " ORDER BY "@ + order_by(s@, SortNames::Assert),
        None => Seq::empty(),
    } + limit_clause(opts.limit)
}

/// Builds the BQL query for balance assertions.
pub fn build_query(opts: &CommonOptions) -> (q: String)
    requires
        range_ok(opt_view_ref(&opts.date_range)),
    ensures
        q@ == assert_query(opts),
{
    let mut where_clauses: Vec<String> = Vec::new();
    push_account_clauses(&mut where_clauses, &opts.account);
    push_date_clauses(&mut where_clauses, &opts.begin, &opts.end, &opts.date_range);
    push_amount_clauses(&mut where_clauses, &opts.amount, "amount.number", "amount.currency");
    let currencies = currency_list_exec(&opts.currency, true);
    let ghost before = where_clauses@;
    if currencies.len() == 1 {
        where_clauses.push(wrap("amount.currency = '", currencies[0].as_str(), "'"));
    } else if currencies.len() > 1 {
        let quoted = wrap_each(&currencies, "'", "'");
        let list = join_strings(&quoted, ", ");
        where_clauses.push(wrap("amount.currency IN (", list.as_str(), ")"));
    }
    assert(views(where_clauses@) =~= views(before) + assert_currency_clauses(views(currencies@)));
    let mut query = String::from_str("SELECT date, account, amount FROM #balances");
    push_where(&mut query, &where_clauses);
    if let Some(sort_str) = &opts.sort {
        query.append(" ORDER BY ");
        let o = order_by_exec(sort_str.as_str(), SortNames::Assert);
        query.append(o.as_str());
    }
    push_limit(&mut query, opts.limit);
    assert(views(where_clauses@) =~= assert_where(opts));
    assert(query@ =~= assert_query(opts));
    query
}

// ---------------------------------------------------------------------------
// Rows
// ---------------------------------------------------------------------------

/// One balance assertion.
#[derive(Debug, Clone)]
pub struct AssertRow {
    pub date: String,
    pub account: String,
    pub balance_number: Decimal,
    pub balance_currency: String,
}

/// An assertion as `(date, account, number, currency)`.
pub open spec fn assert_row_view(r: AssertRow) -> (Seq<char>, Seq<char>, Decimal, Seq<char>) {
    (r.date@, r.account@, r.balance_number, r.balance_currency@)
}

/// An assertion row of the `#balances` table.
pub open spec fn assert_row_fn() -> spec_fn(Json) -> Result<(Seq<char>, Seq<char>, Decimal, Seq<char>), Seq<char>> {
    |j: Json| dated_amount_spec(j, "account"@)
}

/// Reads assertion rows from query results.
pub fn parse_rows(json_rows: &Vec<Json>) -> (r: Result<Vec<AssertRow>, String>)
    ensures
        match r {
            Ok(rows) => map_results(json_rows@, assert_row_fn()) == Ok::<
                Seq<(Seq<char>, Seq<char>, Decimal, Seq<char>)>,
                Seq<char>,
            >(rows@.map_values(|x: AssertRow| assert_row_view(x))) && forall|i: int|
                0 <= i < rows@.len() ==> (#[trigger] rows@[i]).balance_number.wf(),
            Err(e) => map_results(json_rows@, assert_row_fn()) == Err::<
                Seq<(Seq<char>, Seq<char>, Decimal, Seq<char>)>,
                Seq<char>,
            >(e@),
        },
{
    let ghost f = assert_row_fn();
    assert(json_rows@.take(0) =~= Seq::<Json>::empty());
    let mut out: Vec<AssertRow> = Vec::new();
    assert(out@.map_values(|x: AssertRow| assert_row_view(x)) =~= Seq::empty());
    let mut i: usize = 0;
    let null = Json::Null;
    while i < json_rows.len()
        invariant
            i <= json_rows.len(),
            f == assert_row_fn(),
            map_results(json_rows@.take(i as int), f) == Ok::<Seq<(Seq<char>, Seq<char>, Decimal, Seq<char>)>, Seq<char>>(
                out@.map_values(|x: AssertRow| assert_row_view(x)),
            ),
            forall|k: int| 0 <= k < out@.len() ==> (#[trigger] out@[k]).balance_number.wf(),
            null == Json::Null,
        decreases json_rows.len() - i,
    {
        proof {
            lemma_map_results_step(json_rows@, f, i as int, out@.map_values(|x: AssertRow| assert_row_view(x)));
        }
        match dated_amount_exec(&json_rows[i], "account", &null) {
            Ok(t) => {
                let (date, account, balance_number, balance_currency) = t;
                let row = AssertRow { date, account, balance_number, balance_currency };
                let ghost before = out@;
                out.push(row);
                assert(out@.map_values(|x: AssertRow| assert_row_view(x)) =~= before.map_values(
                    |x: AssertRow| assert_row_view(x),
                ).push(assert_row_view(row)));
            },
            Err(e) => {
                proof {
                    lemma_map_results_err_extends(json_rows@, f, i + 1, e@);
                }
                return Err(e);
            },
        }
        i = i + 1;
    }
    assert(json_rows@.take(json_rows.len() as int) =~= json_rows@);
    Ok(out)
}

/// The assertions in one of the `--currency` currencies (all of them when
/// none is given), in order.
pub open spec fn assertions_in(rows: Seq<AssertRow>, currencies: Seq<Seq<char>>) -> Seq<AssertRow> {
    if currencies.len() == 0 {
        rows
    } else {
        rows.filter(|r: AssertRow| currencies.contains(r.balance_currency@))
    }
}

/// Keeps the assertions in the currencies of the `--currency` arguments
/// (split at commas, trimmed, upper-cased); all of them when none is given.
pub fn filter_currencies(rows: Vec<AssertRow>, currency_args: &Vec<String>) -> (out: Vec<AssertRow>)
    requires
        forall|i: int| 0 <= i < rows@.len() ==> (#[trigger] rows@[i]).balance_number.wf(),
    ensures
        out@ == assertions_in(rows@, currency_list(views(currency_args@), true)),
        forall|i: int| 0 <= i < out@.len() ==> (#[trigger] out@[i]).balance_number.wf(),
{
    let currencies = currency_list_exec(currency_args, true);
    let ghost cs = views(currencies@);
    if currencies.len() == 0 {
        return rows;
    }
    let mut rest = rows;
    let mut out: Vec<AssertRow> = Vec::new();
    let ghost all = rest@;
    proof {
        reveal(Seq::filter);
    }
    assert(all.take(0) =~= Seq::<AssertRow>::empty());
    assert(all.skip(0) =~= all);
    while rest.len() > 0
        invariant
            rest@.len() <= all.len(),
            rest@ == all.skip(all.len() - rest@.len()),
            cs == views(currencies@),
            cs.len() > 0,
            out@ == assertions_in(all.take(all.len() - rest@.len()), cs),
            forall|i: int| 0 <= i < all.len() ==> (#[trigger] all[i]).balance_number.wf(),
            forall|i: int| 0 <= i < out@.len() ==> (#[trigger] out@[i]).balance_number.wf(),
        decreases rest@.len(),
    {
        proof {
            reveal(Seq::filter);
        }
        let ghost n = all.len() - rest@.len();
        let row = rest.remove(0);
        assert(row == all[n]);
        assert(rest@ =~= all.skip(n + 1));
        assert(all.take(n + 1).drop_last() =~= all.take(n));
        assert(all.take(n + 1).last() == row);
        if contains_string(&currencies, &row.balance_currency) {
            let ghost before = out@;
            out.push(row);
            assert forall|i: int| 0 <= i < out@.len() implies (#[trigger] out@[i]).balance_number.wf() by {
                if i < before.len() {
                    assert(out@[i] == before[i]);
                }
            }
        }
    }
    assert(all.take(all.len() as int) =~= all);
    out
}

// ---------------------------------------------------------------------------
// Display
// ---------------------------------------------------------------------------

/// How an asserted balance is shown: the number without trailing zeros,
/// then the currency.
pub fn format_balance(amount: Decimal, currency: &str) -> (s: String)
    requires
        amount.wf(),
    ensures
        normalized_text(amount, currency@, s@),
{
    format_normalized(amount, currency)
}

/// The header of the assertions table.
pub open spec fn assert_header() -> Seq<Seq<char>> {
    seq!["Date"@, "Account"@, "Balance"@]
}

/// `cells` are the cells of an assertion: date, account and balance.
pub open spec fn assert_cells(r: AssertRow, cells: Seq<Seq<char>>) -> bool {
    &&& cells.len() == 3
    &&& cells[0] == r.date@
    &&& cells[1] == r.account@
    &&& normalized_text(r.balance_number, r.balance_currency@, cells[2])
}

/// The table of assertions.
pub fn assert_table(rows: &Vec<AssertRow>) -> (t: Table)
    requires
        forall|i: int| 0 <= i < rows@.len() ==> (#[trigger] rows@[i]).balance_number.wf(),
    ensures
        views(t.header@) == assert_header(),
        t.rows@.len() == rows@.len(),
        forall|i: int| 0 <= i < rows@.len() ==> assert_cells(rows@[i], #[trigger] cells_view(t.rows@)[i]),
{
    let mut header: Vec<String> = Vec::new();
    header.push(String::from_str("Date"));
    header.push(String::from_str("Account"));
    header.push(String::from_str("Balance"));
    assert(views(header@) =~= assert_header());
    let mut out: Vec<Vec<String>> = Vec::new();
    let mut i: usize = 0;
    while i < rows.len()
        invariant
            i <= rows.len(),
            forall|m: int| 0 <= m < rows@.len() ==> (#[trigger] rows@[m]).balance_number.wf(),
            out@.len() == i,
            forall|m: int| 0 <= m < i ==> assert_cells(rows@[m], #[trigger] cells_view(out@)[m]),
        decreases rows.len() - i,
    {
        let r = &rows[i];
        assert(r.balance_number.wf());
        let mut cells: Vec<String> = Vec::new();
        cells.push(r.date.clone());
        cells.push(r.account.clone());
        cells.push(format_balance(r.balance_number, r.balance_currency.as_str()));
        let ghost before = out@;
        out.push(cells);
        assert forall|m: int| 0 <= m <= i implies assert_cells(rows@[m], #[trigger] cells_view(out@)[m]) by {
            if m < i {
                assert(cells_view(out@)[m] == cells_view(before)[m]);
            }
        }
        i = i + 1;
    }
    Table { header, rows: out }
}

/// What the assert command shows for its query results: the assertions
/// in the `--currency` currencies; a row that cannot be read is the error.
pub fn run(opts: &CommonOptions, json_rows: &Vec<Json>) -> (r: Result<Table, String>)
    ensures
        match r {
            Ok(t) => exists|rows: Seq<AssertRow>| {
                &&& map_results(json_rows@, assert_row_fn()) == Ok::<
                    Seq<(Seq<char>, Seq<char>, Decimal, Seq<char>)>,
                    Seq<char>,
                >(rows.map_values(|x: AssertRow| assert_row_view(x)))
                &&& views(t.header@) == assert_header()
                &&& cells_view(t.rows@).len() == assertions_in(rows, currency_list(views(opts.currency@), true)).len()
                &&& forall|i: int|
                    0 <= i < cells_view(t.rows@).len() ==> assert_cells(
                        assertions_in(rows, currency_list(views(opts.currency@), true))[i],
                        #[trigger] cells_view(t.rows@)[i],
                    )
            },
            Err(e) => map_results(json_rows@, assert_row_fn()) == Err::<
                Seq<(Seq<char>, Seq<char>, Decimal, Seq<char>)>,
                Seq<char>,
            >(e@),
        },
{
    let rows = parse_rows(json_rows)?;
    let kept = filter_currencies(rows, &opts.currency);
    let t = assert_table(&kept);
    assert(cells_view(t.rows@).len() == t.rows@.len());
    Ok(t)
}


/// The currency filter keeps a row exactly when its currency is one of the
/// requested currencies, any of them (every row when none is requested);
/// what it keeps are rows of the input, in their order.
pub proof fn law_assertions_in_currencies(rows: Seq<AssertRow>, currencies: Seq<Seq<char>>, r: AssertRow)
    ensures
        currencies.len() == 0 ==> assertions_in(rows, currencies) == rows,
        currencies.len() > 0 ==> (assertions_in(rows, currencies).contains(r) <==> rows.contains(r) && currencies.contains(
            r.balance_currency@,
        )),
{
    if currencies.len() > 0 {
        let pred = |x: AssertRow| currencies.contains(x.balance_currency@);
        if assertions_in(rows, currencies).contains(r) {
            rows.lemma_filter_contains_rev(pred, r);
            let i = choose|i: int| 0 <= i < rows.filter(pred).len() && rows.filter(pred)[i] == r;
            rows.lemma_filter_pred(pred, i);
        }
        if rows.contains(r) && currencies.contains(r.balance_currency@) {
            let i = choose|i: int| 0 <= i < rows.len() && rows[i] == r;
            rows.lemma_filter_contains(pred, i);
        }
    }
}


/// Naming currencies with `--currency` restricts the assertion query to
/// them: one currency `C` gives `amount.currency = 'C'`, several give
/// `amount.currency IN ('A', 'B', ..)` with each of them quoted.
pub proof fn law_assert_currency_restricted(opts: &CommonOptions)
    ensures
        currency_list(views(opts.currency@), true).len() == 1 ==> assert_where(opts).contains(
            "amount.currency = '"@ + currency_list(views(opts.currency@), true)[0] + "'"@,
        ),
        currency_list(views(opts.currency@), true).len() > 1 ==> assert_where(opts).contains(
            "amount.currency IN ("@ + crate::text::join(
                currency_list(views(opts.currency@), true).map_values(|c: Seq<char>| "'"@ + c + "'"@),
                ", "@,
            ) + ")"@,
        ),
{
    let cs = currency_list(views(opts.currency@), true);
    let pre = account_clauses(views(opts.account@)) + date_clauses(
        opt_view_ref(&opts.begin),
        opt_view_ref(&opts.end),
        opt_view_ref(&opts.date_range),
    ) + amount_clauses(views(opts.amount@), "amount.number"@, "amount.currency"@);
    let w = assert_where(opts);
    if cs.len() >= 1 {
        assert(w[pre.len() as int] == assert_currency_clauses(cs)[0]);
    }
}

} // verus!

//! `price`: commodity price history from the `#prices` table.
use vstd::prelude::*;
use crate::bql::{
    amount_clauses, date_clauses, limit_clause, order_by, order_by_exec, push_amount_clauses, push_date_clauses,
    push_limit, push_where, range_ok, where_part, wrap, wrap_each, opt_view_ref, SortNames,
};
use crate::cli::CommonOptions;
use crate::decimal::Decimal;
use crate::json::Json;
use crate::numfmt::{format_normalized, normalized_text};
use crate::report::{cells_view, Table};
use crate::rows::{dated_amount_exec, dated_amount_spec, lemma_map_results_err_extends, lemma_map_results_step, map_results};
use crate::bql::{currency_list, currency_list_exec};
use crate::text::{contains_string, join, join_strings, to_uppercase, unicode_upper, views};

verus! {

/// The commodities named by the positional arguments, upper-cased.
pub open spec fn commodities(args: Seq<Seq<char>>) -> Seq<Seq<char>> {
    args.map_values(|a: Seq<char>| unicode_upper(a))
}

/// `currency ~ 'C'` for one commodity, `(currency ~ 'A' OR ...)` for
/// several, nothing for none.
pub open spec fn commodity_clauses(cs: Seq<Seq<char>>) -> Seq<Seq<char>> {
    if cs.len() == 0 {
        Seq::empty()
    } else if cs.len() == 1 {
        seq!["currency ~ '"@ + cs[0] + "'"@]
    } else {
        seq!["("@ + join(cs.map_values(|c: Seq<char>| "currency ~ '"@ + c + "'"@), " OR "@) + ")"@]
    }
}

/// The `WHERE` clauses of the price query.
pub open spec fn price_where(opts: &CommonOptions) -> Seq<Seq<char>> {
    commodity_clauses(commodities(views(opts.account@))) + date_clauses(opt_view_ref(&opts.begin), opt_view_ref(&opts.end), opt_view_ref(&opts.date_range))
        + amount_clauses(views(opts.amount@), "amount.number"@, "amount.currency"@)
}

/// The price query: ordered by date and commodity unless `--sort` says
/// otherwise (`symbol` is `currency`, `price` is `amount`).
pub open spec fn price_query(opts: &CommonOptions) -> Seq<char> {
    "SELECT date, currency, amount FROM #prices"@ + where_part(price_where(opts)) + match opts.sort {
        Some(s) => " ORDER BY "@ + order_by(s@, SortNames::Price),
        None => " ORDER BY date, currency"@,
    } + limit_clause(opts.limit)
}

/// Builds the BQL query for price history.
pub fn build_query(opts: &CommonOptions) -> (q: String)
    requires
        range_ok(opt_view_ref(&opts.date_range)),
    ensures
        q@ == price_query(opts),
{
    let mut where_clauses: Vec<String> = Vec::new();
    let mut upper: Vec<String> = Vec::new();
    let mut i: usize = 0;
    while i < opts.account.len()
        invariant
            i <= opts.account.len(),
            views(upper@) == commodities(views(opts.account@)).take(i as int),
        decreases opts.account.len() - i,
    {
        let u = to_uppercase(opts.account[i].as_str());
        let ghost before = upper@;
        upper.push(u);
        assert(views(upper@) =~= views(before).push(unicode_upper(opts.account@[i as int]@)));
        i = i + 1;
        assert(commodities(views(opts.account@)).take(i as int) =~= commodities(views(opts.account@)).take(i - 1).push(
            unicode_upper(opts.account@[i - 1]@),
        ));
    }
    assert(commodities(views(opts.account@)).take(opts.account.len() as int) =~= commodities(views(opts.account@)));
    if upper.len() == 1 {
        where_clauses.push(wrap("currency ~ '", upper[0].as_str(), "'"));
    } else if upper.len() > 1 {
        let conds = wrap_each(&upper, "currency ~ '", "'");
        let joined = join_strings(&conds, " OR ");
        where_clauses.push(wrap("(", joined.as_str(), ")"));
    }
    assert(views(where_clauses@) =~= commodity_clauses(views(upper@)));
    push_date_clauses(&mut where_clauses, &opts.begin, &opts.end, &opts.date_range);
    push_amount_clauses(&mut where_clauses, &opts.amount, "amount.number", "amount.currency");
    let mut query = String::from_str("SELECT date, currency, amount FROM #prices");
    push_where(&mut query, &where_clauses);
    match &opts.sort {
        Some(sort_str) => {
            query.append(" ORDER BY ");
            let o = order_by_exec(sort_str.as_str(), SortNames::Price);
            query.append(o.as_str());
        },
        None => {
            query.append(" ORDER BY date, currency");
        },
    }
    push_limit(&mut query, opts.limit);
    assert(views(where_clauses@) =~= price_where(opts));
    assert(query@ =~= price_query(opts));
    query
}

// ---------------------------------------------------------------------------
// Rows
// ---------------------------------------------------------------------------

/// One price of a commodity.
#[derive(Debug, Clone)]
pub struct PriceRow {
    pub date: String,
    pub commodity: String,
    pub price_number: Decimal,
    pub price_currency: String,
}

/// A price as `(date, commodity, number, currency)`.
pub open spec fn price_row_view(r: PriceRow) -> (Seq<char>, Seq<char>, Decimal, Seq<char>) {
    (r.date@, r.commodity@, r.price_number, r.price_currency@)
}

/// A price row of the `#prices` table.
pub open spec fn price_row_fn() -> spec_fn(Json) -> Result<(Seq<char>, Seq<char>, Decimal, Seq<char>), Seq<char>> {
    |j: Json| dated_amount_spec(j, "currency"@)
}

/// Reads price rows from query results.
pub fn parse_rows(json_rows: &Vec<Json>) -> (r: Result<Vec<PriceRow>, String>)
    ensures
        match r {
            Ok(rows) => map_results(json_rows@, price_row_fn()) == Ok::<
                Seq<(Seq<char>, Seq<char>, Decimal, Seq<char>)>,
                Seq<char>,
            >(rows@.map_values(|x: PriceRow| price_row_view(x))) && forall|i: int|
                0 <= i < rows@.len() ==> (#[trigger] rows@[i]).price_number.wf(),
            Err(e) => map_results(json_rows@, price_row_fn()) == Err::<
                Seq<(Seq<char>, Seq<char>, Decimal, Seq<char>)>,
                Seq<char>,
            >(e@),
        },
{
    let ghost f = price_row_fn();
    assert(json_rows@.take(0) =~= Seq::<Json>::empty());
    let mut out: Vec<PriceRow> = Vec::new();
    assert(out@.map_values(|x: PriceRow| price_row_view(x)) =~= Seq::empty());
    let mut i: usize = 0;
    let null = Json::Null;
    while i < json_rows.len()
        invariant
            i <= json_rows.len(),
            f == price_row_fn(),
            map_results(json_rows@.take(i as int), f) == Ok::<Seq<(Seq<char>, Seq<char>, Decimal, Seq<char>)>, Seq<char>>(
                out@.map_values(|x: PriceRow| price_row_view(x)),
            ),
            forall|k: int| 0 <= k < out@.len() ==> (#[trigger] out@[k]).price_number.wf(),
            null == Json::Null,
        decreases json_rows.len() - i,
    {
        proof {
            lemma_map_results_step(json_rows@, f, i as int, out@.map_values(|x: PriceRow| price_row_view(x)));
        }
        match dated_amount_exec(&json_rows[i], "currency", &null) {
            Ok(t) => {
                let (date, commodity, price_number, price_currency) = t;
                let row = PriceRow { date, commodity, price_number, price_currency };
                let ghost before = out@;
                out.push(row);
                assert(out@.map_values(|x: PriceRow| price_row_view(x)) =~= before.map_values(
                    |x: PriceRow| price_row_view(x),
                ).push(price_row_view(row)));
            },
            Err(e) => {
                proof {
                    lemma_map_results_err_extends(json_rows@, f, i + 1, e@);
                }
                return Err(e);
            },
        }
        i = i + 1;
    }
    assert(json_rows@.take(json_rows.len() as int) =~= json_rows@);
    Ok(out)
}

/// The prices expressed in one of the `--currency` currencies (all of them
/// when none is given), in order.
pub open spec fn prices_in(rows: Seq<PriceRow>, currencies: Seq<Seq<char>>) -> Seq<PriceRow> {
    if currencies.len() == 0 {
        rows
    } else {
        rows.filter(|r: PriceRow| currencies.contains(r.price_currency@))
    }
}

/// Keeps the prices expressed in the currencies of the `--currency`
/// arguments (split at commas, trimmed, upper-cased); all of them when none
/// is given.
pub fn filter_currencies(rows: Vec<PriceRow>, currency_args: &Vec<String>) -> (out: Vec<PriceRow>)
    requires
        forall|i: int| 0 <= i < rows@.len() ==> (#[trigger] rows@[i]).price_number.wf(),
    ensures
        out@ == prices_in(rows@, currency_list(views(currency_args@), true)),
        forall|i: int| 0 <= i < out@.len() ==> (#[trigger] out@[i]).price_number.wf(),
{
    let currencies = currency_list_exec(currency_args, true);
    let ghost cs = views(currencies@);
    if currencies.len() == 0 {
        return rows;
    }
    let mut rest = rows;
    let mut out: Vec<PriceRow> = Vec::new();
    let ghost all = rest@;
    proof {
        reveal(Seq::filter);
    }
    assert(all.take(0) =~= Seq::<PriceRow>::empty());
    assert(all.skip(0) =~= all);
    while rest.len() > 0
        invariant
            rest@.len() <= all.len(),
            rest@ == all.skip(all.len() - rest@.len()),
            cs == views(currencies@),
            cs.len() > 0,
            out@ == prices_in(all.take(all.len() - rest@.len()), cs),
            forall|i: int| 0 <= i < all.len() ==> (#[trigger] all[i]).price_number.wf(),
            forall|i: int| 0 <= i < out@.len() ==> (#[trigger] out@[i]).price_number.wf(),
        decreases rest@.len(),
    {
        proof {
            reveal(Seq::filter);
        }
        let ghost n = all.len() - rest@.len();
        let row = rest.remove(0);
        assert(row == all[n]);
        assert(rest@ =~= all.skip(n + 1));
        assert(all.take(n + 1).drop_last() =~= all.take(n));
        assert(all.take(n + 1).last() == row);
        if contains_string(&currencies, &row.price_currency) {
            let ghost before = out@;
            out.push(row);
            assert forall|i: int| 0 <= i < out@.len() implies (#[trigger] out@[i]).price_number.wf() by {
                if i < before.len() {
                    assert(out@[i] == before[i]);
                }
            }
        }
    }
    assert(all.take(all.len() as int) =~= all);
    out
}

// ---------------------------------------------------------------------------
// Display
// ---------------------------------------------------------------------------

/// How a price is shown: the number without trailing zeros (the full
/// precision of the ledger stays), then the currency.
pub fn format_price(amount: Decimal, currency: &str) -> (s: String)
    requires
        amount.wf(),
    ensures
        normalized_text(amount, currency@, s@),
{
    format_normalized(amount, currency)
}

/// The header of the price table.
pub open spec fn price_header() -> Seq<Seq<char>> {
    seq!["Date"@, "Commodity"@, "Price"@]
}

/// `cells` are the cells of a price: date, commodity and price.
pub open spec fn price_cells(r: PriceRow, cells: Seq<Seq<char>>) -> bool {
    &&& cells.len() == 3
    &&& cells[0] == r.date@
    &&& cells[1] == r.commodity@
    &&& normalized_text(r.price_number, r.price_currency@, cells[2])
}

/// The table of prices.
pub fn price_table(rows: &Vec<PriceRow>) -> (t: Table)
    requires
        forall|i: int| 0 <= i < rows@.len() ==> (#[trigger] rows@[i]).price_number.wf(),
    ensures
        views(t.header@) == price_header(),
        t.rows@.len() == rows@.len(),
        forall|i: int| 0 <= i < rows@.len() ==> price_cells(rows@[i], #[trigger] cells_view(t.rows@)[i]),
{
    let mut header: Vec<String> = Vec::new();
    header.push(String::from_str("Date"));
    header.push(String::from_str("Commodity"));
    header.push(String::from_str("Price"));
    assert(views(header@) =~= price_header());
    let mut out: Vec<Vec<String>> = Vec::new();
    let mut i: usize = 0;
    while i < rows.len()
        invariant
            i <= rows.len(),
            forall|m: int| 0 <= m < rows@.len() ==> (#[trigger] rows@[m]).price_number.wf(),
            out@.len() == i,
            forall|m: int| 0 <= m < i ==> price_cells(rows@[m], #[trigger] cells_view(out@)[m]),
        decreases rows.len() - i,
    {
        let r = &rows[i];
        assert(r.price_number.wf());
        let mut cells: Vec<String> = Vec::new();
        cells.push(r.date.clone());
        cells.push(r.commodity.clone());
        cells.push(format_price(r.price_number, r.price_currency.as_str()));
        let ghost before = out@;
        out.push(cells);
        assert forall|m: int| 0 <= m <= i implies price_cells(rows@[m], #[trigger] cells_view(out@)[m]) by {
            if m < i {
                assert(cells_view(out@)[m] == cells_view(before)[m]);
            }
        }
        i = i + 1;
    }
    Table { header, rows: out }
}

/// What the price command shows for its query results: the prices in the
/// `--currency` currencies; a row that cannot be read is the error.
pub fn run(opts: &CommonOptions, json_rows: &Vec<Json>) -> (r: Result<Table, String>)
    ensures
        match r {
            Ok(t) => exists|rows: Seq<PriceRow>| {
                &&& map_results(json_rows@, price_row_fn()) == Ok::<
                    Seq<(Seq<char>, Seq<char>, Decimal, Seq<char>)>,
                    Seq<char>,
                >(rows.map_values(|x: PriceRow| price_row_view(x)))
                &&& views(t.header@) == price_header()
                &&& cells_view(t.rows@).len() == prices_in(rows, currency_list(views(opts.currency@), true)).len()
                &&& forall|i: int|
                    0 <= i < cells_view(t.rows@).len() ==> price_cells(
                        prices_in(rows, currency_list(views(opts.currency@), true))[i],
                        #[trigger] cells_view(t.rows@)[i],
                    )
            },
            Err(e) => map_results(json_rows@, price_row_fn()) == Err::<
                Seq<(Seq<char>, Seq<char>, Decimal, Seq<char>)>,
                Seq<char>,
            >(e@),
        },
{
    let rows = parse_rows(json_rows)?;
    let kept = filter_currencies(rows, &opts.currency);
    let t = price_table(&kept);
    assert(cells_view(t.rows@).len() == t.rows@.len());
    Ok(t)
}


/// The currency filter keeps a row exactly when its currency is one of the
/// requested currencies, any of them (every row when none is requested);
/// what it keeps are rows of the input, in their order.
pub proof fn law_prices_in_currencies(rows: Seq<PriceRow>, currencies: Seq<Seq<char>>, r: PriceRow)
    ensures
        currencies.len() == 0 ==> prices_in(rows, currencies) == rows,
        currencies.len() > 0 ==> (prices_in(rows, currencies).contains(r) <==> rows.contains(r) && currencies.contains(
            r.price_currency@,
        )),
{
    if currencies.len() > 0 {
        let pred = |x: PriceRow| currencies.contains(x.price_currency@);
        if prices_in(rows, currencies).contains(r) {
            rows.lemma_filter_contains_rev(pred, r);
            let i = choose|i: int| 0 <= i < rows.filter(pred).len() && rows.filter(pred)[i] == r;
            rows.lemma_filter_pred(pred, i);
        }
        if rows.contains(r) && currencies.contains(r.price_currency@) {
            let i = choose|i: int| 0 <= i < rows.len() && rows[i] == r;
            rows.lemma_filter_contains(pred, i);
        }
    }
}

} // verus!

//! `lots`: investment lots and cost basis.
use vstd::prelude::*;
use crate::bql::{
    account_clauses, amount_clauses, currency_list, currency_list_exec, date_clauses, limit_clause, order_by,
    order_by_exec, push_account_clauses, push_amount_clauses, push_date_clauses, push_limit, push_where, range_ok,
    same_text, where_part, wrap, opt_view_ref, SortNames,
};
use crate::cli::LotsOptions;
use crate::commands::balance::{amount_text, format_amount};
use crate::report::{cells_view, Table};
use crate::decimal::{decimal_from_str, parse_decimal, Decimal};
use crate::json::{as_str, index, str_at, Json};
use crate::rows::{decimal_of, lemma_map_results_err_extends, lemma_map_results_step, map_results, need_str, need_str_exec};
use crate::text::{join, join_strings, to_uppercase, unicode_upper, views};

verus! {

/// `currency = 'C'` for one currency, `currency IN ('A', 'B')` for several.
pub open spec fn lots_currency_clauses(cs: Seq<Seq<char>>) -> Seq<Seq<char>> {
    if cs.len() == 1 {
        seq!["currency = '"@ + cs[0] + "'"@]
    } else if cs.len() > 1 {
        seq!["currency IN ('"@ + join(cs, "', '"@) + "')"@]
    } else {
        Seq::empty()
    }
}

/// The `WHERE` clauses of the lots query; only postings held at cost.
pub open spec fn lots_where(opts: &LotsOptions) -> Seq<Seq<char>> {
    account_clauses(views(opts.account@)) + date_clauses(opt_view_ref(&opts.begin), opt_view_ref(&opts.end), opt_view_ref(&opts.date_range))
        + amount_clauses(views(opts.amount@), "number"@, "currency"@)
        + lots_currency_clauses(currency_list(views(opts.currency@), false))
        + seq!["cost_number IS NOT NULL"@]
}

/// The currency argument of `value(...)`: the `--exchange` currency
/// upper-cased and quoted, or the cost currency.
pub open spec fn value_currency(exchange: Option<Seq<char>>) -> Seq<char> {
    let v = match exchange {
        Some(x) => unicode_upper(x),
        None => "cost_currency"@,
    };
    if v == "cost_currency"@ {
        v
    } else {
        "'"@ + v + "'"@
    }
}

/// The `SELECT` part: per-symbol averages, every lot (`--all`), or the open
/// lots grouped by cost.
pub open spec fn lots_select(opts: &LotsOptions) -> Seq<char> {
    let vc = value_currency(opt_view_ref(&opts.exchange));
    if opts.average {
        "SELECT MAX(date) as date, account, currency(units(position)) as symbol, SUM(units(position)) as quantity, SUM(cost_number * number(units(position))) / SUM(number(units(position))) as avg_price, cost(SUM(position)) as total_cost, value(SUM(position), "@
            + vc + ") as value"@
    } else if opts.show_all {
        "SELECT date, account, currency(units(position)) as symbol, units(position) as quantity, cost_number as price, cost(position) as cost, value(position, "@
            + vc + ") as value"@
    } else {
        "SELECT MAX(date) as date, account, currency(units(position)) as symbol, SUM(units(position)) as quantity, cost_number as price, cost(SUM(position)) as cost, value(SUM(position), "@
            + vc + ") as value"@
    }
}

/// The grouping and the condition on the net quantity: averages and open
/// lots keep a positive one, closed lots (`--closed`) a zero one; every lot
/// (`--all`) is not grouped.
pub open spec fn lots_grouping(opts: &LotsOptions) -> Seq<char> {
    if opts.average {
        " GROUP BY account, currency(units(position)) HAVING SUM(number(units(position))) > 0"@
    } else if opts.show_all {
        Seq::empty()
    } else if opts.closed {
        " GROUP BY account, currency(units(position)), cost_number, cost_currency HAVING SUM(number(units(position))) = 0"@
    } else {
        " GROUP BY account, currency(units(position)), cost_number, cost_currency HAVING SUM(number(units(position))) > 0"@
    }
}

/// The `ORDER BY` list: `--sort` fields, else `--sort-by` (`price` is
/// `avg_price` with `--average`), else the date.
pub open spec fn lots_order(opts: &LotsOptions) -> Seq<char> {
    match opts.sort {
        Some(s) => order_by(s@, SortNames::Plain),
        None => match opts.sort_by {
            Some(sb) => (if opts.average && sb@ == "price"@ { "avg_price"@ } else { sb@ }) + " ASC"@,
            None => "date ASC"@,
        },
    }
}

/// The lots query.
pub open spec fn lots_query(opts: &LotsOptions) -> Seq<char> {
    lots_select(opts) + where_part(lots_where(opts)) + lots_grouping(opts) + " ORDER BY "@ + lots_order(opts)
        + limit_clause(opts.limit)
}

fn value_currency_exec(exchange: &Option<String>) -> (r: String)
    ensures
        r@ == value_currency(opt_view_ref(exchange)),
{
    let v = match exchange {
        Some(x) => to_uppercase(x.as_str()),
        None => String::from_str("cost_currency"),
    };
    if same_text(v.as_str(), "cost_currency") {
        v
    } else {
        wrap("'", v.as_str(), "'")
    }
}

/// Builds the BQL query for lots.
pub fn build_query(opts: &LotsOptions) -> (q: String)
    requires
        range_ok(opt_view_ref(&opts.date_range)),
    ensures
        q@ == lots_query(opts),
{
    let mut where_clauses: Vec<String> = Vec::new();
    push_account_clauses(&mut where_clauses, &opts.account);
    push_date_clauses(&mut where_clauses, &opts.begin, &opts.end, &opts.date_range);
    push_amount_clauses(&mut where_clauses, &opts.amount, "number", "currency");
    let currencies = currency_list_exec(&opts.currency, false);
    let ghost before = where_clauses@;
    if currencies.len() == 1 {
        where_clauses.push(wrap("currency = '", currencies[0].as_str(), "'"));
    } else if currencies.len() > 1 {
        let list = join_strings(&currencies, "', '");
        where_clauses.push(wrap("currency IN ('", list.as_str(), "')"));
    }
    where_clauses.push(String::from_str("cost_number IS NOT NULL"));
    assert(views(where_clauses@) =~= views(before) + lots_currency_clauses(views(currencies@)) + seq![
        "cost_number IS NOT NULL"@,
    ]);
    let vc = value_currency_exec(&opts.exchange);
    let mut query = if opts.average {
        wrap(
            "SELECT MAX(date) as date, account, currency(units(position)) as symbol, SUM(units(position)) as quantity, SUM(cost_number * number(units(position))) / SUM(number(units(position))) as avg_price, cost(SUM(position)) as total_cost, value(SUM(position), ",
            vc.as_str(),
            ") as value",
        )
    } else if opts.show_all {
        wrap(
            "SELECT date, account, currency(units(position)) as symbol, units(position) as quantity, cost_number as price, cost(position) as cost, value(position, ",
            vc.as_str(),
            ") as value",
        )
    } else {
        wrap(
            "SELECT MAX(date) as date, account, currency(units(position)) as symbol, SUM(units(position)) as quantity, cost_number as price, cost(SUM(position)) as cost, value(SUM(position), ",
            vc.as_str(),
            ") as value",
        )
    };
    push_where(&mut query, &where_clauses);
    if opts.average {
        query.append(" GROUP BY account, currency(units(position)) HAVING SUM(number(units(position))) > 0");
    } else if opts.show_all {
    } else if opts.closed {
        query.append(" GROUP BY account, currency(units(position)), cost_number, cost_currency HAVING SUM(number(units(position))) = 0");
    } else {
        query.append(" GROUP BY account, currency(units(position)), cost_number, cost_currency HAVING SUM(number(units(position))) > 0");
    }
    query.append(" ORDER BY ");
    let order = match &opts.sort {
        Some(s) => order_by_exec(s.as_str(), SortNames::Plain),
        None => match &opts.sort_by {
            Some(sb) => {
                let field = if opts.average && same_text(sb.as_str(), "price") {
                    String::from_str("avg_price")
                } else {
                    sb.clone()
                };
                wrap("", field.as_str(), " ASC")
            },
            None => String::from_str("date ASC"),
        },
    };
    query.append(order.as_str());
    push_limit(&mut query, opts.limit);
    proof {
        reveal_strlit("");
    }
    assert(views(where_clauses@) =~= lots_where(opts));
    assert(query@ =~= lots_query(opts));
    query
}

// ---------------------------------------------------------------------------
// Rows
// ---------------------------------------------------------------------------

/// A quantity of some commodity.
#[derive(Debug, Clone)]
pub struct Quantity {
    pub currency: String,
    pub amount: Decimal,
}

/// An amount in some currency.
#[derive(Debug, Clone)]
pub struct Amount {
    pub currency: String,
    pub amount: Decimal,
}

/// One lot: when and where it was bought, how much at what price, its
/// cost and its value.
#[derive(Debug, Clone)]
pub struct LotsRow {
    pub date: String,
    pub account: String,
    pub symbol: String,
    pub quantity: Quantity,
    pub price: Decimal,
    pub cost: Amount,
    pub value: Amount,
}

/// The holding of one symbol in one account, at its average price.
#[derive(Debug, Clone)]
pub struct AverageLotsRow {
    pub date: String,
    pub account: String,
    pub symbol: String,
    pub quantity: Quantity,
    pub average_price: Decimal,
    pub total_cost: Amount,
    pub value: Amount,
}

/// A lot as `(date, account, symbol, quantity, price, cost, value)`, with
/// quantity, cost and value as `(currency, amount)`.
pub type LotView = (Seq<char>, Seq<char>, Seq<char>, (Seq<char>, Decimal), Decimal, (Seq<char>, Decimal), (Seq<char>, Decimal));

/// The view of a [`LotsRow`].
pub open spec fn lot_view(r: LotsRow) -> LotView {
    (r.date@, r.account@, r.symbol@, (r.quantity.currency@, r.quantity.amount), r.price, (r.cost.currency@, r.cost.amount), (
        r.value.currency@,
        r.value.amount,
    ))
}

/// The view of an [`AverageLotsRow`].
pub open spec fn average_view(r: AverageLotsRow) -> LotView {
    (r.date@, r.account@, r.symbol@, (r.quantity.currency@, r.quantity.amount), r.average_price, (
        r.total_cost.currency@,
        r.total_cost.amount,
    ), (r.value.currency@, r.value.amount))
}

/// A string value read as a decimal: `missing {label} field` when it is
/// not a string, `invalid decimal in {label}: {text}` when it is no decimal.
pub open spec fn decimal_value_spec(v: Json, label: Seq<char>) -> Result<Decimal, Seq<char>> {
    match as_str(v) {
        None => Err("missing "@ + label + " field"@),
        Some(n) => match decimal_from_str(n) {
            None => Err("invalid decimal in "@ + label + ": "@ + n),
            Some((m, sc)) => Ok(decimal_of(m, sc)),
        },
    }
}

/// A required string field, or `missing {field} field`.
pub open spec fn required_str_spec(row: Json, f: Seq<char>) -> Result<Seq<char>, Seq<char>> {
    need_str(row, f, "missing "@ + f + " field"@)
}

/// An amount value (`{"currency": .., "number": ..}`).
pub open spec fn amount_spec(v: Json, label: Seq<char>) -> Result<(Seq<char>, Decimal), Seq<char>> {
    match need_str(v, "currency"@, "missing currency in "@ + label) {
        Err(e) => Err(e),
        Ok(c) => match decimal_value_spec(index(v, "number"@), label) {
            Err(e) => Err(e),
            Ok(d) => Ok((c, d)),
        },
    }
}

/// A quantity: an amount value, or else the first position of an
/// inventory value.
pub open spec fn quantity_spec(v: Json) -> Result<(Seq<char>, Decimal), Seq<char>> {
    match str_at(v, "currency"@) {
        Some(c) => match decimal_value_spec(index(v, "number"@), "quantity"@) {
            Err(e) => Err(e),
            Ok(d) => Ok((c, d)),
        },
        None => match index(v, "positions"@) {
            Json::Array(ps) => if ps@.len() == 0 {
                Err("empty positions array in quantity"@)
            } else {
                match need_str(ps@[0], "currency"@, "missing currency in quantity position"@) {
                    Err(e) => Err(e),
                    Ok(c) => match decimal_value_spec(index(ps@[0], "number"@), "quantity"@) {
                        Err(e) => Err(e),
                        Ok(d) => Ok((c, d)),
                    },
                }
            },
            _ => Err("missing positions array in quantity"@),
        },
    }
}

/// A lot row, its fields read in order; the price and cost come from the
/// columns `price_key` and `cost_key`.
pub open spec fn lot_spec(row: Json, price_key: Seq<char>, cost_key: Seq<char>) -> Result<LotView, Seq<char>> {
    match required_str_spec(row, "date"@) {
        Err(e) => Err(e),
        Ok(date) => match required_str_spec(row, "account"@) {
            Err(e) => Err(e),
            Ok(account) => match required_str_spec(row, "symbol"@) {
                Err(e) => Err(e),
                Ok(symbol) => match quantity_spec(index(row, "quantity"@)) {
                    Err(e) => Err(e),
                    Ok(q) => match decimal_value_spec(index(row, price_key), price_key) {
                        Err(e) => Err(e),
                        Ok(p) => match amount_spec(index(row, cost_key), cost_key) {
                            Err(e) => Err(e),
                            Ok(c) => match amount_spec(index(row, "value"@), "value"@) {
                                Err(e) => Err(e),
                                Ok(v) => Ok((date, account, symbol, q, p, c, v)),
                            },
                        },
                    },
                },
            },
        },
    }
}

/// A row of open lots (price in `price`, cost in `cost`).
pub open spec fn lots_row_fn() -> spec_fn(Json) -> Result<LotView, Seq<char>> {
    |j: Json| lot_spec(j, "price"@, "cost"@)
}

/// The first fields of a row, read in order (date, account, symbol), and
/// then its quantity.
pub open spec fn lot_head_spec(row: Json) -> Result<(Seq<char>, Decimal), Seq<char>> {
    match required_str_spec(row, "date"@) {
        Err(e) => Err(e),
        Ok(_) => match required_str_spec(row, "account"@) {
            Err(e) => Err(e),
            Ok(_) => match required_str_spec(row, "symbol"@) {
                Err(e) => Err(e),
                Ok(_) => quantity_spec(index(row, "quantity"@)),
            },
        },
    }
}

/// A row of average holdings: `None` for a holding whose net quantity is
/// zero (it is not shown), else the row with its price in `avg_price` and
/// its cost in `total_cost`.
pub open spec fn average_lot_spec(row: Json) -> Result<Option<LotView>, Seq<char>> {
    match lot_head_spec(row) {
        Err(e) => Err(e),
        Ok(q) => if q.1.mantissa == 0 {
            Ok(None)
        } else {
            match lot_spec(row, "avg_price"@, "total_cost"@) {
                Err(e) => Err(e),
                Ok(v) => Ok(Some(v)),
            }
        },
    }
}

/// A row of average holdings, as [`average_lot_spec`] reads it.
pub open spec fn average_row_fn() -> spec_fn(Json) -> Result<Option<LotView>, Seq<char>> {
    |j: Json| average_lot_spec(j)
}

/// The present items of `s`, in order.
pub open spec fn kept<T>(s: Seq<Option<T>>) -> Seq<T>
    decreases s.len(),
{
    if s.len() == 0 {
        Seq::empty()
    } else {
        match s.last() {
            Some(x) => kept(s.drop_last()).push(x),
            None => kept(s.drop_last()),
        }
    }
}

/// The amounts of a lot are within `rust_decimal`'s range.
pub open spec fn lot_wf(v: LotView) -> bool {
    v.3.1.wf() && v.4.wf() && v.5.1.wf() && v.6.1.wf()
}

fn decimal_value(v: &Json, label: &str) -> (r: Result<Decimal, String>)
    ensures
        match r {
            Ok(d) => decimal_value_spec(*v, label@) == Ok::<Decimal, Seq<char>>(d) && d.wf(),
            Err(e) => decimal_value_spec(*v, label@) == Err::<Decimal, Seq<char>>(e@),
        },
{
    let n = match v {
        Json::Str(n) => n,
        _ => {
            let mut e = String::from_str("missing ");
            e.append(label);
            e.append(" field");
            return Err(e);
        },
    };
    match parse_decimal(n.as_str()) {
        Some(d) => Ok(d),
        None => {
            let mut e = String::from_str("invalid decimal in ");
            e.append(label);
            e.append(": ");
            e.append(n.as_str());
            Err(e)
        },
    }
}

fn required_str(row: &Json, f: &str) -> (r: Result<String, String>)
    ensures
        match r {
            Ok(s) => required_str_spec(*row, f@) == Ok::<Seq<char>, Seq<char>>(s@),
            Err(e) => required_str_spec(*row, f@) == Err::<Seq<char>, Seq<char>>(e@),
        },
{
    let mut msg = String::from_str("missing ");
    msg.append(f);
    msg.append(" field");
    need_str_exec(row, f, msg.as_str())
}

fn parse_amount(v: &Json, label: &str, null: &Json) -> (r: Result<Amount, String>)
    requires
        *null == Json::Null,
    ensures
        match r {
            Ok(a) => amount_spec(*v, label@) == Ok::<(Seq<char>, Decimal), Seq<char>>((a.currency@, a.amount)) && a.amount.wf(),
            Err(e) => amount_spec(*v, label@) == Err::<(Seq<char>, Decimal), Seq<char>>(e@),
        },
{
    let mut msg = String::from_str("missing currency in ");
    msg.append(label);
    let currency = need_str_exec(v, "currency", msg.as_str())?;
    let amount = decimal_value(v.at("number", null), label)?;
    Ok(Amount { currency, amount })
}

fn parse_quantity(v: &Json, null: &Json) -> (r: Result<Quantity, String>)
    requires
        *null == Json::Null,
    ensures
        match r {
            Ok(q) => quantity_spec(*v) == Ok::<(Seq<char>, Decimal), Seq<char>>((q.currency@, q.amount)) && q.amount.wf(),
            Err(e) => quantity_spec(*v) == Err::<(Seq<char>, Decimal), Seq<char>>(e@),
        },
{
    if let Some(currency) = v.str_at("currency") {
        let amount = decimal_value(v.at("number", null), "quantity")?;
        return Ok(Quantity { currency: currency.clone(), amount });
    }
    let positions = match v.at("positions", null).as_array() {
        Some(ps) => ps,
        None => return Err(String::from_str("missing positions array in quantity")),
    };
    if positions.len() == 0 {
        return Err(String::from_str("empty positions array in quantity"));
    }
    let first = &positions[0];
    let currency = need_str_exec(first, "currency", "missing currency in quantity position")?;
    let amount = decimal_value(first.at("number", null), "quantity")?;
    Ok(Quantity { currency, amount })
}

fn parse_lot(row: &Json, price_key: &str, cost_key: &str, null: &Json) -> (r: Result<
    (String, String, String, Quantity, Decimal, Amount, Amount),
    String,
>)
    requires
        *null == Json::Null,
    ensures
        match r {
            Ok(t) => lot_spec(*row, price_key@, cost_key@) == Ok::<LotView, Seq<char>>(
                (t.0@, t.1@, t.2@, (t.3.currency@, t.3.amount), t.4, (t.5.currency@, t.5.amount), (t.6.currency@, t.6.amount)),
            ) && t.3.amount.wf() && t.4.wf() && t.5.amount.wf() && t.6.amount.wf(),
            Err(e) => lot_spec(*row, price_key@, cost_key@) == Err::<LotView, Seq<char>>(e@),
        },
{
    let date = required_str(row, "date")?;
    let account = required_str(row, "account")?;
    let symbol = required_str(row, "symbol")?;
    let quantity = parse_quantity(row.at("quantity", null), null)?;
    let price = decimal_value(row.at(price_key, null), price_key)?;
    let cost = parse_amount(row.at(cost_key, null), cost_key, null)?;
    let value = parse_amount(row.at("value", null), "value", null)?;
    Ok((date, account, symbol, quantity, price, cost, value))
}

/// Reads the rows of open lots (or of every lot) from query results.
pub fn parse_rows(json_rows: &Vec<Json>) -> (r: Result<Vec<LotsRow>, String>)
    ensures
        match r {
            Ok(rows) => map_results(json_rows@, lots_row_fn()) == Ok::<Seq<LotView>, Seq<char>>(
                rows@.map_values(|x: LotsRow| lot_view(x)),
            ) && forall|i: int| 0 <= i < rows@.len() ==> lot_wf(lot_view(#[trigger] rows@[i])),
            Err(e) => map_results(json_rows@, lots_row_fn()) == Err::<Seq<LotView>, Seq<char>>(e@),
        },
{
    let ghost f = lots_row_fn();
    assert(json_rows@.take(0) =~= Seq::<Json>::empty());
    let mut out: Vec<LotsRow> = Vec::new();
    assert(out@.map_values(|x: LotsRow| lot_view(x)) =~= Seq::empty());
    let mut i: usize = 0;
    let null = Json::Null;
    while i < json_rows.len()
        invariant
            i <= json_rows.len(),
            f == lots_row_fn(),
            map_results(json_rows@.take(i as int), f) == Ok::<Seq<LotView>, Seq<char>>(
                out@.map_values(|x: LotsRow| lot_view(x)),
            ),
            forall|k: int| 0 <= k < out@.len() ==> lot_wf(lot_view(#[trigger] out@[k])),
            null == Json::Null,
        decreases json_rows.len() - i,
    {
        proof {
            lemma_map_results_step(json_rows@, f, i as int, out@.map_values(|x: LotsRow| lot_view(x)));
        }
        match parse_lot(&json_rows[i], "price", "cost", &null) {
            Ok(t) => {
                let (date, account, symbol, quantity, price, cost, value) = t;
                let row = LotsRow { date, account, symbol, quantity, price, cost, value };
                let ghost before = out@;
                out.push(row);
                assert(out@.map_values(|x: LotsRow| lot_view(x)) =~= before.map_values(|x: LotsRow| lot_view(x)).push(
                    lot_view(row),
                ));
            },
            Err(e) => {
                proof {
                    lemma_map_results_err_extends(json_rows@, f, i + 1, e@);
                }
                return Err(e);
            },
        }
        i = i + 1;
    }
    assert(json_rows@.take(json_rows.len() as int) =~= json_rows@);
    Ok(out)
}

fn lot_head(row: &Json, null: &Json) -> (r: Result<Quantity, String>)
    requires
        *null == Json::Null,
    ensures
        match r {
            Ok(q) => lot_head_spec(*row) == Ok::<(Seq<char>, Decimal), Seq<char>>((q.currency@, q.amount)) && q.amount.wf(),
            Err(e) => lot_head_spec(*row) == Err::<(Seq<char>, Decimal), Seq<char>>(e@),
        },
{
    let _date = required_str(row, "date")?;
    let _account = required_str(row, "account")?;
    let _symbol = required_str(row, "symbol")?;
    parse_quantity(row.at("quantity", null), null)
}

/// Reads the rows of average holdings from query results; a holding whose
/// net quantity is zero is left out.
pub fn parse_average_rows(json_rows: &Vec<Json>) -> (r: Result<Vec<AverageLotsRow>, String>)
    ensures
        match r {
            Ok(rows) => map_results(json_rows@, average_row_fn()) matches Ok(vs) && kept(vs) == rows@.map_values(
                |x: AverageLotsRow| average_view(x),
            ) && forall|i: int| 0 <= i < rows@.len() ==> lot_wf(average_view(#[trigger] rows@[i])),
            Err(e) => map_results(json_rows@, average_row_fn()) == Err::<Seq<Option<LotView>>, Seq<char>>(e@),
        },
{
    let ghost f = average_row_fn();
    assert(json_rows@.take(0) =~= Seq::<Json>::empty());
    let mut out: Vec<AverageLotsRow> = Vec::new();
    let ghost mut done: Seq<Option<LotView>> = Seq::empty();
    assert(out@.map_values(|x: AverageLotsRow| average_view(x)) =~= kept(done));
    let mut i: usize = 0;
    let null = Json::Null;
    while i < json_rows.len()
        invariant
            i <= json_rows.len(),
            f == average_row_fn(),
            map_results(json_rows@.take(i as int), f) == Ok::<Seq<Option<LotView>>, Seq<char>>(done),
            kept(done) == out@.map_values(|x: AverageLotsRow| average_view(x)),
            forall|k: int| 0 <= k < out@.len() ==> lot_wf(average_view(#[trigger] out@[k])),
            null == Json::Null,
        decreases json_rows.len() - i,
    {
        proof {
            lemma_map_results_step(json_rows@, f, i as int, done);
        }
        let q = match lot_head(&json_rows[i], &null) {
            Ok(q) => q,
            Err(e) => {
                proof {
                    lemma_map_results_err_extends(json_rows@, f, i + 1, e@);
                }
                return Err(e);
            },
        };
        if q.amount.mantissa == 0 {
            proof {
                assert(done.push(None).drop_last() =~= done);
                done = done.push(None);
            }
        } else {
            match parse_lot(&json_rows[i], "avg_price", "total_cost", &null) {
                Ok(t) => {
                    let (date, account, symbol, quantity, average_price, total_cost, value) = t;
                    let row = AverageLotsRow { date, account, symbol, quantity, average_price, total_cost, value };
                    let ghost before = out@;
                    out.push(row);
                    proof {
                        assert(done.push(Some(average_view(row))).drop_last() =~= done);
                        done = done.push(Some(average_view(row)));
                    }
                    assert(out@.map_values(|x: AverageLotsRow| average_view(x)) =~= before.map_values(
                        |x: AverageLotsRow| average_view(x),
                    ).push(average_view(row)));
                },
                Err(e) => {
                    proof {
                        lemma_map_results_err_extends(json_rows@, f, i + 1, e@);
                    }
                    return Err(e);
                },
            }
        }
        i = i + 1;
    }
    assert(json_rows@.take(json_rows.len() as int) =~= json_rows@);
    Ok(out)
}

// ---------------------------------------------------------------------------
// Display
// ---------------------------------------------------------------------------

/// The header of the lots table: date, account, symbol, quantity, price and
/// cost, and the value where it is shown (`--all`).
pub open spec fn lots_header(with_value: bool) -> Seq<Seq<char>> {
    seq!["Date"@, "Account"@, "Symbol"@, "Quantity"@, "Price"@, "Cost"@] + if with_value {
        seq!["Value"@]
    } else {
        Seq::empty()
    }
}

/// The header of the average-holdings table.
pub open spec fn average_header() -> Seq<Seq<char>> {
    seq!["Date"@, "Account"@, "Symbol"@, "Quantity"@, "Average Price"@, "Total Cost"@, "Value"@]
}

/// The cells of a lot, in the header's order: the quantity with its
/// commodity, the price in the cost currency, the cost, and the value where
/// it is shown; each amount with two decimals and thousands separators.
pub open spec fn lot_cells(v: LotView, with_value: bool) -> Seq<Seq<char>> {
    seq![v.0, v.1, v.2, amount_text(v.3.1, v.3.0), amount_text(v.4, v.5.0), amount_text(v.5.1, v.5.0)] + if with_value {
        seq![amount_text(v.6.1, v.6.0)]
    } else {
        Seq::empty()
    }
}

fn lot_cells_exec(
    date: &String,
    account: &String,
    symbol: &String,
    quantity: &Quantity,
    price: Decimal,
    cost: &Amount,
    value: &Amount,
    with_value: bool,
) -> (r: Vec<String>)
    requires
        quantity.amount.wf(),
        price.wf(),
        cost.amount.wf(),
        value.amount.wf(),
    ensures
        views(r@) == lot_cells(
            (date@, account@, symbol@, (quantity.currency@, quantity.amount), price, (cost.currency@, cost.amount), (
                value.currency@,
                value.amount,
            )),
            with_value,
        ),
{
    let mut r: Vec<String> = Vec::new();
    r.push(date.clone());
    r.push(account.clone());
    r.push(symbol.clone());
    r.push(format_amount(quantity.amount, quantity.currency.as_str()));
    r.push(format_amount(price, cost.currency.as_str()));
    r.push(format_amount(cost.amount, cost.currency.as_str()));
    if with_value {
        r.push(format_amount(value.amount, value.currency.as_str()));
    }
    assert(views(r@) =~= lot_cells(
        (date@, account@, symbol@, (quantity.currency@, quantity.amount), price, (cost.currency@, cost.amount), (
            value.currency@,
            value.amount,
        )),
        with_value,
    ));
    r
}

/// The table of lots, with the value column where `with_value` holds.
pub fn lots_table(rows: &Vec<LotsRow>, with_value: bool) -> (t: Table)
    requires
        forall|i: int| 0 <= i < rows@.len() ==> lot_wf(lot_view(#[trigger] rows@[i])),
    ensures
        t.view_cells() == (lots_header(with_value), rows@.map_values(|x: LotsRow| lot_cells(lot_view(x), with_value))),
{
    let mut header: Vec<String> = Vec::new();
    header.push(String::from_str("Date"));
    header.push(String::from_str("Account"));
    header.push(String::from_str("Symbol"));
    header.push(String::from_str("Quantity"));
    header.push(String::from_str("Price"));
    header.push(String::from_str("Cost"));
    if with_value {
        header.push(String::from_str("Value"));
    }
    assert(views(header@) =~= lots_header(with_value));
    let mut out: Vec<Vec<String>> = Vec::new();
    let mut i: usize = 0;
    while i < rows.len()
        invariant
            i <= rows.len(),
            forall|m: int| 0 <= m < rows@.len() ==> lot_wf(lot_view(#[trigger] rows@[m])),
            cells_view(out@) == rows@.take(i as int).map_values(|x: LotsRow| lot_cells(lot_view(x), with_value)),
        decreases rows.len() - i,
    {
        let r = &rows[i];
        assert(lot_wf(lot_view(*r)));
        let cells = lot_cells_exec(&r.date, &r.account, &r.symbol, &r.quantity, r.price, &r.cost, &r.value, with_value);
        let ghost before = out@;
        out.push(cells);
        assert(cells_view(out@) =~= cells_view(before).push(views(cells@)));
        i = i + 1;
        assert(rows@.take(i as int) =~= rows@.take(i - 1).push(rows@[i - 1]));
    }
    assert(rows@.take(rows.len() as int) =~= rows@);
    Table { header, rows: out }
}

/// The table of average holdings.
pub fn average_table(rows: &Vec<AverageLotsRow>) -> (t: Table)
    requires
        forall|i: int| 0 <= i < rows@.len() ==> lot_wf(average_view(#[trigger] rows@[i])),
    ensures
        t.view_cells() == (average_header(), rows@.map_values(|x: AverageLotsRow| lot_cells(average_view(x), true))),
{
    let mut header: Vec<String> = Vec::new();
    header.push(String::from_str("Date"));
    header.push(String::from_str("Account"));
    header.push(String::from_str("Symbol"));
    header.push(String::from_str("Quantity"));
    header.push(String::from_str("Average Price"));
    header.push(String::from_str("Total Cost"));
    header.push(String::from_str("Value"));
    assert(views(header@) =~= average_header());
    let mut out: Vec<Vec<String>> = Vec::new();
    let mut i: usize = 0;
    while i < rows.len()
        invariant
            i <= rows.len(),
            forall|m: int| 0 <= m < rows@.len() ==> lot_wf(average_view(#[trigger] rows@[m])),
            cells_view(out@) == rows@.take(i as int).map_values(|x: AverageLotsRow| lot_cells(average_view(x), true)),
        decreases rows.len() - i,
    {
        let r = &rows[i];
        assert(lot_wf(average_view(*r)));
        let cells = lot_cells_exec(&r.date, &r.account, &r.symbol, &r.quantity, r.average_price, &r.total_cost, &r.value, true);
        let ghost before = out@;
        out.push(cells);
        assert(cells_view(out@) =~= cells_view(before).push(views(cells@)));
        i = i + 1;
        assert(rows@.take(i as int) =~= rows@.take(i - 1).push(rows@[i - 1]));
    }
    assert(rows@.take(rows.len() as int) =~= rows@);
    Table { header, rows: out }
}

/// What the lots command shows for its query results: with `--average` the
/// average holdings (those with a zero net quantity left out), else the
/// lots, with the value column only for `--all`; a row that cannot be read
/// is the error.
pub fn run(opts: &LotsOptions, json_rows: &Vec<Json>) -> (r: Result<Table, String>)
    ensures
        opts.average ==> match r {
            Ok(t) => map_results(json_rows@, average_row_fn()) matches Ok(vs) && t.view_cells() == (
                average_header(),
                kept(vs).map_values(|v: LotView| lot_cells(v, true)),
            ),
            Err(e) => map_results(json_rows@, average_row_fn()) == Err::<Seq<Option<LotView>>, Seq<char>>(e@),
        },
        !opts.average ==> match r {
            Ok(t) => map_results(json_rows@, lots_row_fn()) matches Ok(vs) && t.view_cells() == (
                lots_header(opts.show_all),
                vs.map_values(|v: LotView| lot_cells(v, opts.show_all)),
            ),
            Err(e) => map_results(json_rows@, lots_row_fn()) == Err::<Seq<LotView>, Seq<char>>(e@),
        },
{
    if opts.average {
        let rows = parse_average_rows(json_rows)?;
        let t = average_table(&rows);
        assert(rows@.map_values(|x: AverageLotsRow| lot_cells(average_view(x), true)) =~= rows@.map_values(
            |x: AverageLotsRow| average_view(x),
        ).map_values(|v: LotView| lot_cells(v, true)));
        Ok(t)
    } else {
        let rows = parse_rows(json_rows)?;
        let t = lots_table(&rows, opts.show_all);
        assert(rows@.map_values(|x: LotsRow| lot_cells(lot_view(x), opts.show_all)) =~= rows@.map_values(
            |x: LotsRow| lot_view(x),
        ).map_values(|v: LotView| lot_cells(v, opts.show_all)));
        Ok(t)
    }
}


/// Naming currencies with `--currency` restricts the lots to them: one
/// currency `C` gives the condition `currency = 'C'`, several give
/// `currency IN ('A', 'B', ..)` with all of them, in order.
pub proof fn law_lots_currency_restricted(opts: &LotsOptions)
    ensures
        currency_list(views(opts.currency@), false).len() == 1 ==> lots_where(opts).contains(
            "currency = '"@ + currency_list(views(opts.currency@), false)[0] + "'"@,
        ),
        currency_list(views(opts.currency@), false).len() > 1 ==> lots_where(opts).contains(
            "currency IN ('"@ + join(currency_list(views(opts.currency@), false), "', '"@) + "')"@,
        ),
{
    let cs = currency_list(views(opts.currency@), false);
    let pre = account_clauses(views(opts.account@)) + date_clauses(
        opt_view_ref(&opts.begin),
        opt_view_ref(&opts.end),
        opt_view_ref(&opts.date_range),
    ) + amount_clauses(views(opts.amount@), "number"@, "currency"@);
    let w = lots_where(opts);
    if cs.len() >= 1 {
        assert(w[pre.len() as int] == lots_currency_clauses(cs)[0]);
    }
}

} // verus!

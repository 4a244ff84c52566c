//! `reg`: the transaction register.
use vstd::prelude::*;
use crate::bql::{
    account_clauses, amount_clauses, currency_eq_clauses, currency_list, currency_list_exec, date_clauses, limit_clause,
    order_by, order_by_exec, push_account_clauses, push_amount_clauses, push_currency_eq_clauses, push_date_clauses,
    push_limit, push_where, range_ok, where_part, opt_view_ref, SortNames,
};
use crate::cli::CommonOptions;
use crate::commands::balance::{amount_text, format_amount, pos_view, positions_view, Position, SumOverflow};
use crate::decimal::{checked_add, dec_add, Decimal};
use crate::report::{cells_view, Table};
use crate::sums::{add_position_to, amounts_wf, key_set, lemma_sums_undefined_extends, sums_defined, sums_of, zero_dec};
use crate::json::{field, index, Json};
use crate::rows::{
    lemma_map_results_err_extends, lemma_map_results_step, map_results, need_decimal, need_decimal_exec, need_str,
    need_str_exec, str_or_empty, str_or_empty_exec,
};
use crate::text::{join, join_strings, sort_strings, sorted_strs, to_uppercase, unicode_upper, views};

verus! {

/// The `SELECT` part: postings, and converted positions with `--exchange`.
pub open spec fn register_select(exchange: Option<Seq<char>>) -> Seq<char> {
    match exchange {
        Some(x) => "SELECT date, account, payee, narration, position, convert(position, '"@ + unicode_upper(x)
            + "') as Converted"@,
        None => "SELECT date, account, payee, narration, position"@,
    }
}

/// The `WHERE` clauses of the register query; amount filters apply to
/// each posting.
pub open spec fn register_where(opts: &CommonOptions) -> Seq<Seq<char>> {
    account_clauses(views(opts.account@)) + date_clauses(opt_view_ref(&opts.begin), opt_view_ref(&opts.end), opt_view_ref(&opts.date_range))
        + currency_eq_clauses(currency_list(views(opts.currency@), true))
        + amount_clauses(views(opts.amount@), "number"@, "currency"@)
}

/// The register query; it is ordered only when `--sort` is given.
pub open spec fn register_query(opts: &CommonOptions) -> Seq<char> {
    register_select(opt_view_ref(&opts.exchange)) + where_part(register_where(opts)) + match opts.sort {
        Some(s) => " ORDER BY "@ + order_by(s@, SortNames::Plain),
        None => Seq::empty(),
    } + limit_clause(opts.limit)
}

/// Builds the BQL query for the register.
pub fn build_query(opts: &CommonOptions) -> (q: String)
    requires
        range_ok(opt_view_ref(&opts.date_range)),
    ensures
        q@ == register_query(opts),
{
    let mut where_clauses: Vec<String> = Vec::new();
    push_account_clauses(&mut where_clauses, &opts.account);
    push_date_clauses(&mut where_clauses, &opts.begin, &opts.end, &opts.date_range);
    let currencies = currency_list_exec(&opts.currency, true);
    push_currency_eq_clauses(&mut where_clauses, &currencies);
    push_amount_clauses(&mut where_clauses, &opts.amount, "number", "currency");
    let mut query = match &opts.exchange {
        Some(exchange) => {
            let exchange_upper = to_uppercase(exchange.as_str());
            let mut s = String::from_str("SELECT date, account, payee, narration, position, convert(position, '");
            s.append(exchange_upper.as_str());
            s.append("') as Converted");
            s
        },
        None => String::from_str("SELECT date, account, payee, narration, position"),
    };
    push_where(&mut query, &where_clauses);
    if let Some(sort_str) = &opts.sort {
        query.append(" ORDER BY ");
        let o = order_by_exec(sort_str.as_str(), SortNames::Plain);
        query.append(o.as_str());
    }
    push_limit(&mut query, opts.limit);
    assert(views(where_clauses@) =~= register_where(opts));
    assert(query@ =~= register_query(opts));
    query
}

// ---------------------------------------------------------------------------
// Rows
// ---------------------------------------------------------------------------

/// One posting of the register.
#[derive(Debug, Clone)]
pub struct RegisterRow {
    pub date: String,
    pub account: String,
    pub payee: String,
    pub narration: String,
    pub amount: Decimal,
    pub currency: String,
    pub converted_amount: Option<Position>,
}

/// A register row as `(date, account, payee, narration, amount, currency,
/// converted)`.
pub open spec fn register_row_view(r: RegisterRow) -> (Seq<char>, Seq<char>, Seq<char>, Seq<char>, Decimal, Seq<char>, Option<(Seq<char>, Decimal)>) {
    (r.date@, r.account@, r.payee@, r.narration@, r.amount, r.currency@, match r.converted_amount {
        Some(p) => Some(pos_view(p)),
        None => None,
    })
}

/// Register rows as views.
pub open spec fn register_rows_view(rs: Seq<RegisterRow>) -> Seq<(Seq<char>, Seq<char>, Seq<char>, Seq<char>, Decimal, Seq<char>, Option<(Seq<char>, Decimal)>)> {
    rs.map_values(|r: RegisterRow| register_row_view(r))
}

/// Amounts are within `rust_decimal`'s range.
pub open spec fn register_row_wf(r: RegisterRow) -> bool {
    &&& r.amount.wf()
    &&& r.converted_amount matches Some(p) ==> p.amount.wf()
}

/// A converted position: currency and number.
pub open spec fn converted_spec(v: Json) -> Result<(Seq<char>, Decimal), Seq<char>> {
    match need_str(v, "currency"@, "missing currency in converted position"@) {
        Err(e) => Err(e),
        Ok(c) => match need_str(v, "number"@, "missing number in converted position"@) {
            Err(e) => Err(e),
            Ok(n) => match need_decimal(n, "invalid decimal: "@) {
                Err(e) => Err(e),
                Ok(d) => Ok((c, d)),
            },
        },
    }
}

/// One register row: date and account (required), payee and narration
/// (empty when missing), the units of the position, and the converted
/// position when the row has one.
pub open spec fn register_row_spec(row: Json) -> Result<
    (Seq<char>, Seq<char>, Seq<char>, Seq<char>, Decimal, Seq<char>, Option<(Seq<char>, Decimal)>),
    Seq<char>,
> {
    let units = index(index(row, "position"@), "units"@);
    match need_str(row, "date"@, "missing date field"@) {
        Err(e) => Err(e),
        Ok(date) => match need_str(row, "account"@, "missing account field"@) {
            Err(e) => Err(e),
            Ok(account) => match need_str(units, "currency"@, "missing currency in position"@) {
                Err(e) => Err(e),
                Ok(currency) => match need_str(units, "number"@, "missing number in position"@) {
                    Err(e) => Err(e),
                    Ok(n) => match need_decimal(n, "invalid decimal: "@) {
                        Err(e) => Err(e),
                        Ok(amount) => match field(row, "Converted"@) {
                            None => Ok((date, account, str_or_empty(row, "payee"@), str_or_empty(row, "narration"@), amount, currency, None)),
                            Some(c) => match converted_spec(c) {
                                Err(e) => Err(e),
                                Ok(p) => Ok((date, account, str_or_empty(row, "payee"@), str_or_empty(row, "narration"@), amount, currency, Some(p))),
                            },
                        },
                    },
                },
            },
        },
    }
}

/// [`register_row_spec`] as a function value.
pub open spec fn register_row_fn() -> spec_fn(Json) -> Result<
    (Seq<char>, Seq<char>, Seq<char>, Seq<char>, Decimal, Seq<char>, Option<(Seq<char>, Decimal)>),
    Seq<char>,
> {
    |j: Json| register_row_spec(j)
}

fn parse_position(value: &Json) -> (r: Result<Position, String>)
    ensures
        match r {
            Ok(p) => converted_spec(*value) == Ok::<(Seq<char>, Decimal), Seq<char>>(pos_view(p)) && p.amount.wf(),
            Err(e) => converted_spec(*value) == Err::<(Seq<char>, Decimal), Seq<char>>(e@),
        },
{
    let currency = need_str_exec(value, "currency", "missing currency in converted position")?;
    let number = need_str_exec(value, "number", "missing number in converted position")?;
    let amount = need_decimal_exec(number.as_str(), "invalid decimal: ")?;
    Ok(Position { currency, amount })
}

fn parse_row(row: &Json, null: &Json) -> (r: Result<RegisterRow, String>)
    requires
        *null == Json::Null,
    ensures
        match r {
            Ok(b) => register_row_spec(*row) == Ok::<
                (Seq<char>, Seq<char>, Seq<char>, Seq<char>, Decimal, Seq<char>, Option<(Seq<char>, Decimal)>),
                Seq<char>,
            >(register_row_view(b)) && register_row_wf(b),
            Err(e) => register_row_spec(*row) == Err::<
                (Seq<char>, Seq<char>, Seq<char>, Seq<char>, Decimal, Seq<char>, Option<(Seq<char>, Decimal)>),
                Seq<char>,
            >(e@),
        },
{
    let date = need_str_exec(row, "date", "missing date field")?;
    let account = need_str_exec(row, "account", "missing account field")?;
    let payee = str_or_empty_exec(row, "payee");
    let narration = str_or_empty_exec(row, "narration");
    let units = row.at("position", null).at("units", null);
    let currency = need_str_exec(units, "currency", "missing currency in position")?;
    let number = need_str_exec(units, "number", "missing number in position")?;
    let amount = need_decimal_exec(number.as_str(), "invalid decimal: ")?;
    let converted_amount = match row.get("Converted") {
        None => None,
        Some(c) => Some(parse_position(c)?),
    };
    Ok(RegisterRow { date, account, payee, narration, amount, currency, converted_amount })
}

/// Reads register rows from query results.
pub fn parse_rows(json_rows: &Vec<Json>) -> (r: Result<Vec<RegisterRow>, String>)
    ensures
        match r {
            Ok(rows) => map_results(json_rows@, register_row_fn()) == Ok::<
                Seq<(Seq<char>, Seq<char>, Seq<char>, Seq<char>, Decimal, Seq<char>, Option<(Seq<char>, Decimal)>)>,
                Seq<char>,
            >(register_rows_view(rows@)) && forall|i: int| 0 <= i < rows@.len() ==> register_row_wf(#[trigger] rows@[i]),
            Err(e) => map_results(json_rows@, register_row_fn()) == Err::<
                Seq<(Seq<char>, Seq<char>, Seq<char>, Seq<char>, Decimal, Seq<char>, Option<(Seq<char>, Decimal)>)>,
                Seq<char>,
            >(e@),
        },
{
    let ghost f = register_row_fn();
    assert(json_rows@.take(0) =~= Seq::<Json>::empty());
    let mut out: Vec<RegisterRow> = Vec::new();
    assert(register_rows_view(out@) =~= Seq::empty());
    let mut i: usize = 0;
    let null = Json::Null;
    while i < json_rows.len()
        invariant
            i <= json_rows.len(),
            f == register_row_fn(),
            map_results(json_rows@.take(i as int), f) == Ok::<
                Seq<(Seq<char>, Seq<char>, Seq<char>, Seq<char>, Decimal, Seq<char>, Option<(Seq<char>, Decimal)>)>,
                Seq<char>,
            >(register_rows_view(out@)),
            forall|k: int| 0 <= k < out@.len() ==> register_row_wf(#[trigger] out@[k]),
            null == Json::Null,
        decreases json_rows.len() - i,
    {
        proof {
            lemma_map_results_step(json_rows@, f, i as int, register_rows_view(out@));
        }
        match parse_row(&json_rows[i], &null) {
            Ok(b) => {
                let ghost before = out@;
                out.push(b);
                assert(register_rows_view(out@) =~= register_rows_view(before).push(register_row_view(b)));
            },
            Err(e) => {
                proof {
                    lemma_map_results_err_extends(json_rows@, f, i + 1, e@);
                }
                return Err(e);
            },
        }
        i = i + 1;
    }
    assert(json_rows@.take(json_rows.len() as int) =~= json_rows@);
    Ok(out)
}

// ---------------------------------------------------------------------------
// Display
// ---------------------------------------------------------------------------

/// The `(currency, amount)` of each row, in order.
pub open spec fn row_amounts(rows: Seq<RegisterRow>) -> Seq<(Seq<char>, Decimal)> {
    rows.map_values(|r: RegisterRow| (r.currency@, r.amount))
}

/// The converted amounts of the rows that have one, in order.
pub open spec fn converted_amounts(rows: Seq<RegisterRow>) -> Seq<Decimal>
    decreases rows.len(),
{
    if rows.len() == 0 {
        Seq::empty()
    } else {
        converted_amounts(rows.drop_last()) + match rows.last().converted_amount {
            Some(p) => seq![p.amount],
            None => Seq::empty(),
        }
    }
}

/// The sum of some amounts, added in order from zero as
/// `Decimal::checked_add` adds; `None` once an addition overflows.
pub open spec fn plain_sum(ds: Seq<Decimal>) -> Option<Decimal>
    decreases ds.len(),
{
    if ds.len() == 0 {
        Some(zero_dec())
    } else {
        match plain_sum(ds.drop_last()) {
            None => None,
            Some(s) => dec_add(s, ds.last()),
        }
    }
}

/// The texts of some sums `(currency, amount)`.
pub open spec fn sum_texts(l: Seq<(Seq<char>, Decimal)>) -> Seq<Seq<char>> {
    l.map_values(|p: (Seq<char>, Decimal)| amount_text(p.1, p.0))
}

/// `cell` shows the running totals of `items`: the text of each
/// currency's sum, the texts in order, separated by spaces.
pub open spec fn running_cell(items: Seq<(Seq<char>, Decimal)>, cell: Seq<char>) -> bool {
    exists|l: Seq<(Seq<char>, Decimal)>, o: Seq<Seq<char>>|
        sums_of(l, items) && sorted_strs(o) && o.to_multiset() == sum_texts(l).to_multiset() && cell == join(o, " "@)
}

/// The header: the posting's columns, the running total with `--total`,
/// and with `--exchange` the converted amount (and its running total).
pub open spec fn register_header(show_total: bool, exchange: Option<Seq<char>>) -> Seq<Seq<char>> {
    seq!["Date"@, "Account"@, "Payee"@, "Narration"@, "Amount"@] + (if show_total {
        seq!["Running Total"@]
    } else {
        Seq::empty()
    }) + match exchange {
        Some(x) => seq!["Amount ("@ + unicode_upper(x) + ")"@] + if show_total {
            seq!["Total ("@ + unicode_upper(x) + ")"@]
        } else {
            Seq::empty()
        },
        None => Seq::empty(),
    }
}

/// The cells of a row, given its running-total cell and the converted
/// running total.
pub open spec fn register_cells(
    r: RegisterRow,
    running: Seq<char>,
    converted_total: Decimal,
    show_total: bool,
    exchange: Option<Seq<char>>,
) -> Seq<Seq<char>> {
    seq![r.date@, r.account@, r.payee@, r.narration@, amount_text(r.amount, r.currency@)] + (if show_total {
        seq![running]
    } else {
        Seq::empty()
    }) + match exchange {
        Some(x) => seq![
            match r.converted_amount {
                Some(p) => amount_text(p.amount, p.currency@),
                None => Seq::empty(),
            },
        ] + if show_total {
            seq![amount_text(converted_total, unicode_upper(x))]
        } else {
            Seq::empty()
        },
        None => Seq::empty(),
    }
}

/// `cells` are the cells of row `i`: its running totals are those of the
/// rows up to it.
pub open spec fn register_row_cells(rows: Seq<RegisterRow>, i: int, show_total: bool, exchange: Option<Seq<char>>, cells: Seq<Seq<char>>) -> bool {
    exists|running: Seq<char>|
        {
            &&& #[trigger] running_cell(row_amounts(rows.take(i + 1)), running)
            &&& plain_sum(converted_amounts(rows.take(i + 1))) matches Some(ct)
            &&& cells == register_cells(rows[i], running, ct, show_total, exchange)
        }
}

/// Register rows within `rust_decimal`'s range.
pub open spec fn register_rows_wf(rows: Seq<RegisterRow>) -> bool {
    forall|i: int| 0 <= i < rows.len() ==> register_row_wf(#[trigger] rows[i])
}

proof fn lemma_plain_sum_none_extends(a: Seq<Decimal>, b: Seq<Decimal>)
    requires
        plain_sum(a) is None,
    ensures
        plain_sum(a + b) is None,
    decreases b.len(),
{
    if b.len() == 0 {
        assert(a + b =~= a);
    } else {
        lemma_plain_sum_none_extends(a, b.drop_last());
        assert((a + b).drop_last() =~= a + b.drop_last());
    }
}

proof fn lemma_converted_amounts_append(a: Seq<RegisterRow>, b: Seq<RegisterRow>)
    ensures
        converted_amounts(a + b) == converted_amounts(a) + converted_amounts(b),
    decreases b.len(),
{
    if b.len() == 0 {
        assert(a + b =~= a);
        assert(converted_amounts(a) + converted_amounts(b) =~= converted_amounts(a));
    } else {
        lemma_converted_amounts_append(a, b.drop_last());
        assert((a + b).drop_last() =~= a + b.drop_last());
        assert((a + b).last() == b.last());
        let x: Seq<Decimal> = match b.last().converted_amount {
            Some(p) => seq![p.amount],
            None => Seq::empty(),
        };
        assert(converted_amounts(a) + converted_amounts(b.drop_last()) + x =~= converted_amounts(a) + (converted_amounts(
            b.drop_last(),
        ) + x));
    }
}

/// The running totals cell: the text of each sum, in text order, separated
/// by spaces.
pub fn format_running_totals(totals: &Vec<Position>) -> (s: String)
    requires
        amounts_wf(totals@),
    ensures
        exists|o: Seq<Seq<char>>|
            sorted_strs(o) && o.to_multiset() == sum_texts(positions_view(totals@)).to_multiset() && s@ == join(o, " "@),
{
    let mut parts: Vec<String> = Vec::new();
    let mut i: usize = 0;
    while i < totals.len()
        invariant
            i <= totals.len(),
            amounts_wf(totals@),
            views(parts@) == sum_texts(positions_view(totals@)).take(i as int),
        decreases totals.len() - i,
    {
        let t = format_amount(totals[i].amount, totals[i].currency.as_str());
        let ghost before = parts@;
        parts.push(t);
        assert(views(parts@) =~= views(before).push(t@));
        i = i + 1;
        assert(sum_texts(positions_view(totals@)).take(i as int) =~= sum_texts(positions_view(totals@)).take(i - 1).push(
            sum_texts(positions_view(totals@))[i - 1],
        ));
    }
    assert(sum_texts(positions_view(totals@)).take(totals.len() as int) =~= sum_texts(positions_view(totals@)));
    let sorted = sort_strings(&parts);
    let s = join_strings(&sorted, " ");
    assert(sorted_strs(views(sorted@)) && views(sorted@).to_multiset() == sum_texts(positions_view(totals@)).to_multiset()
        && s@ == join(views(sorted@), " "@));
    s
}

/// The table that the register command prints: one row per posting, with
/// running totals per currency and, with `--exchange`, the converted amount
/// and its running total. The totals are kept whether or not they are shown,
/// so an overflow is an error either way.
pub fn register_table(rows: &Vec<RegisterRow>, show_total: bool, exchange: &Option<String>) -> (r: Result<Table, SumOverflow>)
    requires
        register_rows_wf(rows@),
    ensures
        match r {
            Ok(t) => views(t.header@) == register_header(show_total, opt_view_ref(exchange)) && t.rows@.len() == rows@.len()
                && forall|i: int|
                0 <= i < rows@.len() ==> register_row_cells(
                    rows@,
                    i,
                    show_total,
                    opt_view_ref(exchange),
                    #[trigger] cells_view(t.rows@)[i],
                ),
            Err(_) => !(sums_defined(row_amounts(rows@)) && plain_sum(converted_amounts(rows@)) is Some),
        },
{
    let ghost ex = opt_view_ref(exchange);
    let upper: Option<String> = match exchange {
        Some(x) => Some(to_uppercase(x.as_str())),
        None => None,
    };
    let mut header: Vec<String> = Vec::new();
    header.push(String::from_str("Date"));
    header.push(String::from_str("Account"));
    header.push(String::from_str("Payee"));
    header.push(String::from_str("Narration"));
    header.push(String::from_str("Amount"));
    if show_total {
        header.push(String::from_str("Running Total"));
    }
    if let Some(u) = &upper {
        let mut h = String::from_str("Amount (");
        h.append(u.as_str());
        h.append(")");
        header.push(h);
        if show_total {
            let mut h2 = String::from_str("Total (");
            h2.append(u.as_str());
            h2.append(")");
            header.push(h2);
        }
    }
    assert(views(header@) =~= register_header(show_total, ex));
    let mut totals: Vec<Position> = Vec::new();
    let mut converted_total = Decimal::zero();
    let mut out: Vec<Vec<String>> = Vec::new();
    let mut i: usize = 0;
    assert(rows@.take(0) =~= Seq::<RegisterRow>::empty());
    assert(row_amounts(rows@.take(0)) =~= Seq::<(Seq<char>, Decimal)>::empty());
    assert(key_set(positions_view(totals@)) =~= key_set(row_amounts(rows@.take(0))));
    while i < rows.len()
        invariant
            i <= rows.len(),
            register_rows_wf(rows@),
            ex == opt_view_ref(exchange),
            upper matches Some(u) ==> ex matches Some(x) && u@ == unicode_upper(x),
            upper is None <==> ex is None,
            sums_of(positions_view(totals@), row_amounts(rows@.take(i as int))),
            amounts_wf(totals@),
            plain_sum(converted_amounts(rows@.take(i as int))) == Some(converted_total),
            converted_total.wf(),
            out@.len() == i,
            forall|m: int| 0 <= m < i ==> register_row_cells(rows@, m, show_total, ex, #[trigger] cells_view(out@)[m]),
        decreases rows.len() - i,
    {
        let row = &rows[i];
        assert(register_row_wf(*row));
        let ghost items = row_amounts(rows@.take(i as int));
        proof {
            assert(rows@.take(i + 1).drop_last() =~= rows@.take(i as int));
            assert(row_amounts(rows@.take(i + 1)) =~= items.push((row.currency@, row.amount)));
            assert(rows@.take(i + 1) + rows@.skip(i + 1) =~= rows@);
            assert(row_amounts(rows@) =~= row_amounts(rows@.take(i + 1)) + row_amounts(rows@.skip(i + 1)));
            lemma_converted_amounts_append(rows@.take(i + 1), rows@.skip(i + 1));
        }
        let p = Position { currency: row.currency.clone(), amount: row.amount };
        if !add_position_to(&mut totals, &p, Ghost(items)) {
            proof {
                lemma_sums_undefined_extends(row_amounts(rows@.take(i + 1)), row_amounts(rows@.skip(i + 1)));
            }
            return Err(SumOverflow);
        }
        match &row.converted_amount {
            Some(c) => {
                match checked_add(converted_total, c.amount) {
                    Some(t) => {
                        converted_total = t;
                    },
                    None => {
                        proof {
                            assert(converted_amounts(rows@.take(i + 1)) =~= converted_amounts(rows@.take(i as int)).push(
                                c.amount,
                            ));
                            assert(converted_amounts(rows@.take(i + 1)).drop_last() =~= converted_amounts(rows@.take(i as int)));
                            lemma_plain_sum_none_extends(converted_amounts(rows@.take(i + 1)), converted_amounts(rows@.skip(i + 1)));
                        }
                        return Err(SumOverflow);
                    },
                }
                proof {
                    assert(converted_amounts(rows@.take(i + 1)).drop_last() =~= converted_amounts(rows@.take(i as int)));
                }
            },
            None => {
                assert(converted_amounts(rows@.take(i + 1)) =~= converted_amounts(rows@.take(i as int)));
            },
        }
        let running = format_running_totals(&totals);
        let mut cells: Vec<String> = Vec::new();
        cells.push(row.date.clone());
        cells.push(row.account.clone());
        cells.push(row.payee.clone());
        cells.push(row.narration.clone());
        cells.push(format_amount(row.amount, row.currency.as_str()));
        if show_total {
            cells.push(running.clone());
        }
        if let Some(u) = &upper {
            let conv = match &row.converted_amount {
                Some(c) => format_amount(c.amount, c.currency.as_str()),
                None => String::new(),
            };
            cells.push(conv);
            if show_total {
                cells.push(format_amount(converted_total, u.as_str()));
            }
        }
        proof {
            assert(views(cells@) =~= register_cells(*row, running@, converted_total, show_total, ex));
            assert(running_cell(row_amounts(rows@.take(i + 1)), running@));
            assert(register_row_cells(rows@, i as int, show_total, ex, views(cells@)));
        }
        let ghost before = out@;
        out.push(cells);
        proof {
            assert forall|m: int| 0 <= m <= i implies register_row_cells(
                rows@,
                m,
                show_total,
                ex,
                #[trigger] cells_view(out@)[m],
            ) by {
                if m < i {
                    assert(cells_view(out@)[m] == cells_view(before)[m]);
                }
            }
        }
        i = i + 1;
    }
    Ok(Table { header, rows: out })
}


/// Naming currencies with `--currency` restricts the register query to
/// them: one currency `C` gives the condition `currency = 'C'`, several give
/// one condition that accepts each of them.
pub proof fn law_register_currency_restricted(opts: &CommonOptions)
    ensures
        currency_list(views(opts.currency@), true).len() == 1 ==> register_where(opts).contains(
            "currency = '"@ + currency_list(views(opts.currency@), true)[0] + "'"@,
        ),
        currency_list(views(opts.currency@), true).len() > 1 ==> register_where(opts).contains(
            "("@ + crate::text::join(
                currency_list(views(opts.currency@), true).map_values(|c: Seq<char>| "currency = '"@ + c + "'"@),
                " OR "@,
            ) + ")"@,
        ),
{
    let cs = currency_list(views(opts.currency@), true);
    let pre = account_clauses(views(opts.account@)) + date_clauses(
        opt_view_ref(&opts.begin),
        opt_view_ref(&opts.end),
        opt_view_ref(&opts.date_range),
    );
    let w = register_where(opts);
    if cs.len() >= 1 {
        assert(w[pre.len() as int] == currency_eq_clauses(cs)[0]);
    }
}


/// With `--total`, the running total shown on a row counts that row too:
/// it is the running total of the rows before it with the row's own amount
/// added, and the converted running total likewise adds the row's own
/// converted amount.
pub proof fn law_running_total_includes_row(
    rows: Seq<RegisterRow>,
    i: int,
    exchange: Option<Seq<char>>,
    cells: Seq<Seq<char>>,
)
    requires
        0 <= i < rows.len(),
        register_row_cells(rows, i, true, exchange, cells),
    ensures
        cells.len() >= 6,
        running_cell(row_amounts(rows.take(i)).push((rows[i].currency@, rows[i].amount)), cells[5]),
        exchange is Some ==> (plain_sum(converted_amounts(rows.take(i)) + match rows[i].converted_amount {
            Some(p) => seq![p.amount],
            None => Seq::empty(),
        }) matches Some(ct) && cells.len() == 8 && cells[7] == amount_text(ct, unicode_upper(exchange->0))),
{
    let running = choose|running: Seq<char>|
        {
            &&& #[trigger] running_cell(row_amounts(rows.take(i + 1)), running)
            &&& plain_sum(converted_amounts(rows.take(i + 1))) matches Some(ct)
            &&& cells == register_cells(rows[i], running, ct, true, exchange)
        };
    assert(row_amounts(rows.take(i + 1)) =~= row_amounts(rows.take(i)).push((rows[i].currency@, rows[i].amount)));
    assert(rows.take(i + 1).drop_last() =~= rows.take(i));
    assert(rows.take(i + 1).last() == rows[i]);
    assert(cells[5] == running);
}

} // verus!

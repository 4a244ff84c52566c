//! Reading typed rows out of query results: required strings and
//! decimals, with the error text that each missing piece gives.
use vstd::prelude::*;
use crate::decimal::{decimal_from_str, parse_decimal, Decimal};
use crate::json::{index, str_at, Json};

verus! {

/// The decimal that `rust_decimal` reads from a text, as a value.
pub open spec fn decimal_of(m: int, s: int) -> Decimal {
    Decimal { mantissa: m as i128, scale: s as u32 }
}

/// `value[k].as_str()`, or the error `msg`.
pub open spec fn need_str(j: Json, k: Seq<char>, msg: Seq<char>) -> Result<Seq<char>, Seq<char>> {
    match str_at(j, k) {
        Some(s) => Ok(s),
        None => Err(msg),
    }
}

/// The decimal in `text`, or the error `prefix + text`.
pub open spec fn need_decimal(text: Seq<char>, prefix: Seq<char>) -> Result<Decimal, Seq<char>> {
    match decimal_from_str(text) {
        Some((m, s)) => Ok(decimal_of(m, s)),
        None => Err(prefix + text),
    }
}

/// Applies `f` to every item in order; the first error stops it.
pub open spec fn map_results<A, B>(items: Seq<A>, f: spec_fn(A) -> Result<B, Seq<char>>) -> Result<Seq<B>, Seq<char>>
    decreases items.len(),
{
    if items.len() == 0 {
        Ok(Seq::empty())
    } else {
        match map_results(items.drop_last(), f) {
            Err(e) => Err(e),
            Ok(done) => match f(items.last()) {
                Err(e) => Err(e),
                Ok(b) => Ok(done.push(b)),
            },
        }
    }
}

pub proof fn lemma_map_results_step<A, B>(items: Seq<A>, f: spec_fn(A) -> Result<B, Seq<char>>, i: int, done: Seq<B>)
    requires
        0 <= i < items.len(),
        map_results(items.take(i), f) == Ok::<Seq<B>, Seq<char>>(done),
    ensures
        match f(items[i]) {
            Ok(b) => map_results(items.take(i + 1), f) == Ok::<Seq<B>, Seq<char>>(done.push(b)),
            Err(e) => map_results(items.take(i + 1), f) == Err::<Seq<B>, Seq<char>>(e),
        },
{
    assert(items.take(i + 1).drop_last() =~= items.take(i));
}

pub proof fn lemma_map_results_err_extends<A, B>(items: Seq<A>, f: spec_fn(A) -> Result<B, Seq<char>>, i: int, e: Seq<char>)
    requires
        0 <= i <= items.len(),
        map_results(items.take(i), f) == Err::<Seq<B>, Seq<char>>(e),
    ensures
        map_results(items, f) == Err::<Seq<B>, Seq<char>>(e),
    decreases items.len() - i,
{
    if i == items.len() {
        assert(items.take(i) =~= items);
    } else {
        assert(items.take(i + 1).drop_last() =~= items.take(i));
        lemma_map_results_err_extends(items, f, i + 1, e);
    }
}

/// `value[k].as_str()`, or the error `msg`.
pub fn need_str_exec(j: &Json, k: &str, msg: &str) -> (r: Result<String, String>)
    ensures
        match r {
            Ok(s) => need_str(*j, k@, msg@) == Ok::<Seq<char>, Seq<char>>(s@),
            Err(e) => need_str(*j, k@, msg@) == Err::<Seq<char>, Seq<char>>(e@),
        },
{
    match j.str_at(k) {
        Some(s) => Ok(s.clone()),
        None => Err(String::from_str(msg)),
    }
}

/// The decimal in `text`, or the error `prefix + text`.
pub fn need_decimal_exec(text: &str, prefix: &str) -> (r: Result<Decimal, String>)
    ensures
        match r {
            Ok(d) => need_decimal(text@, prefix@) == Ok::<Decimal, Seq<char>>(d) && d.wf(),
            Err(e) => need_decimal(text@, prefix@) == Err::<Decimal, Seq<char>>(e@),
        },
{
    match parse_decimal(text) {
        Some(d) => Ok(d),
        None => {
            let mut e = String::from_str(prefix);
            e.append(text);
            Err(e)
        },
    }
}

/// `value[k].as_str()`, or the empty string.
pub open spec fn str_or_empty(j: Json, k: Seq<char>) -> Seq<char> {
    match str_at(j, k) {
        Some(s) => s,
        None => Seq::empty(),
    }
}

/// `value[k].as_str().unwrap_or("")`.
pub fn str_or_empty_exec(j: &Json, k: &str) -> (r: String)
    ensures
        r@ == str_or_empty(*j, k@),
{
    match j.str_at(k) {
        Some(s) => s.clone(),
        None => String::new(),
    }
}

/// A row of a system table (`#balances`, `#prices`): its date, the text in
/// column `key`, and its amount as `(number, currency)`.
pub open spec fn dated_amount_spec(row: Json, key: Seq<char>) -> Result<(Seq<char>, Seq<char>, Decimal, Seq<char>), Seq<char>> {
    let amount = index(row, "amount"@);
    match need_str(row, "date"@, "missing date field"@) {
        Err(e) => Err(e),
        Ok(date) => match need_str(row, key, "missing "@ + key + " field"@) {
            Err(e) => Err(e),
            Ok(x) => match need_str(amount, "currency"@, "missing currency in amount"@) {
                Err(e) => Err(e),
                Ok(c) => match need_str(amount, "number"@, "missing number in amount"@) {
                    Err(e) => Err(e),
                    Ok(n) => match need_decimal(n, "invalid decimal: "@) {
                        Err(e) => Err(e),
                        Ok(d) => Ok((date, x, d, c)),
                    },
                },
            },
        },
    }
}

/// Reads a row of a system table (see [`dated_amount_spec`]).
pub fn dated_amount_exec(row: &Json, key: &str, null: &Json) -> (r: Result<(String, String, Decimal, String), String>)
    requires
        *null == Json::Null,
    ensures
        match r {
            Ok(t) => dated_amount_spec(*row, key@) == Ok::<(Seq<char>, Seq<char>, Decimal, Seq<char>), Seq<char>>(
                (t.0@, t.1@, t.2, t.3@),
            ) && t.2.wf(),
            Err(e) => dated_amount_spec(*row, key@) == Err::<(Seq<char>, Seq<char>, Decimal, Seq<char>), Seq<char>>(e@),
        },
{
    let date = need_str_exec(row, "date", "missing date field")?;
    let mut msg = String::from_str("missing ");
    msg.append(key);
    msg.append(" field");
    let x = need_str_exec(row, key, msg.as_str())?;
    let amount = row.at("amount", null);
    let currency = need_str_exec(amount, "currency", "missing currency in amount")?;
    let number = need_str_exec(amount, "number", "missing number in amount")?;
    let d = need_decimal_exec(number.as_str(), "invalid decimal: ")?;
    Ok((date, x, d, currency))
}

} // verus!

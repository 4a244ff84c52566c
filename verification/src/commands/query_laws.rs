//! Properties that the five query builders share.
use vstd::prelude::*;
use crate::bql::{date_clauses, ge_clause, lt_clause, opt_view_ref};
use crate::cli::{CommonOptions, LotsOptions};
use crate::commands::balance::{balance_query, balance_where};
use crate::commands::balance_assert::{assert_query, assert_where};
use crate::commands::lots::{lots_query, lots_where};
use crate::commands::price::{price_query, price_where};
use crate::commands::register::{register_query, register_where};
use crate::date_parser::parse_date_spec;
use crate::numfmt::nat_digits;
use crate::text::unicode_upper;

verus! {

/// `s` ends with `t`.
pub open spec fn ends_with(s: Seq<char>, t: Seq<char>) -> bool {
    t.len() <= s.len() && s.subrange(s.len() - t.len(), s.len() as int) == t
}

proof fn lemma_ends_with_append(a: Seq<char>, t: Seq<char>)
    ensures
        ends_with(a + t, t),
{
    assert((a + t).subrange(a.len() as int, (a + t).len() as int) =~= t);
}

/// With `--limit n` every query ends with ` LIMIT n`: the limit comes
/// after the conditions, the grouping and the order.
pub proof fn law_limit_comes_last(c: CommonOptions, l: LotsOptions, n: usize)
    requires
        c.limit == Some(n),
        l.limit == Some(n),
    ensures
        ends_with(balance_query(&c), " LIMIT "@ + nat_digits(n as nat)),
        ends_with(register_query(&c), " LIMIT "@ + nat_digits(n as nat)),
        ends_with(assert_query(&c), " LIMIT "@ + nat_digits(n as nat)),
        ends_with(price_query(&c), " LIMIT "@ + nat_digits(n as nat)),
        ends_with(lots_query(&l), " LIMIT "@ + nat_digits(n as nat)),
{
    let t = " LIMIT "@ + nat_digits(n as nat);
    lemma_ends_with_append(balance_query(&c).take(balance_query(&c).len() - t.len()), t);
    assert(balance_query(&c) =~= balance_query(&c).take(balance_query(&c).len() - t.len()) + t);
    lemma_ends_with_append(register_query(&c).take(register_query(&c).len() - t.len()), t);
    assert(register_query(&c) =~= register_query(&c).take(register_query(&c).len() - t.len()) + t);
    lemma_ends_with_append(assert_query(&c).take(assert_query(&c).len() - t.len()), t);
    assert(assert_query(&c) =~= assert_query(&c).take(assert_query(&c).len() - t.len()) + t);
    lemma_ends_with_append(price_query(&c).take(price_query(&c).len() - t.len()), t);
    assert(price_query(&c) =~= price_query(&c).take(price_query(&c).len() - t.len()) + t);
    lemma_ends_with_append(lots_query(&l).take(lots_query(&l).len() - t.len()), t);
    assert(lots_query(&l) =~= lots_query(&l).take(lots_query(&l).len() - t.len()) + t);
}

/// `--begin b` and `--end e` bound the dates of a query from `b`
/// (inclusive) to `e` (exclusive): the date conditions hold both clauses.
pub proof fn lemma_bounds_in_date_clauses(b: Seq<char>, e: Seq<char>, range: Option<Seq<char>>, d0: Seq<char>, d1: Seq<char>)
    requires
        parse_date_spec(b) == Ok::<Seq<char>, Seq<char>>(d0),
        parse_date_spec(e) == Ok::<Seq<char>, Seq<char>>(d1),
    ensures
        date_clauses(Some(b), Some(e), range)[0] == ge_clause(d0),
        date_clauses(Some(b), Some(e), range)[1] == lt_clause(d1),
        date_clauses(Some(b), Some(e), range).len() >= 2,
{
}

/// `--begin b` and `--end e`, both dates that parse, give every query the
/// conditions `date >= date("b'")` and `date < date("e'")` (the end is
/// exclusive), `b'` and `e'` the dates they name.
pub proof fn law_begin_end_bounds(c: CommonOptions, l: LotsOptions, d0: Seq<char>, d1: Seq<char>)
    requires
        opt_view_ref(&c.begin) matches Some(b) && parse_date_spec(b) == Ok::<Seq<char>, Seq<char>>(d0),
        opt_view_ref(&c.end) matches Some(e) && parse_date_spec(e) == Ok::<Seq<char>, Seq<char>>(d1),
        opt_view_ref(&l.begin) matches Some(b) && parse_date_spec(b) == Ok::<Seq<char>, Seq<char>>(d0),
        opt_view_ref(&l.end) matches Some(e) && parse_date_spec(e) == Ok::<Seq<char>, Seq<char>>(d1),
    ensures
        balance_where(&c).contains(ge_clause(d0)) && balance_where(&c).contains(lt_clause(d1)),
        register_where(&c).contains(ge_clause(d0)) && register_where(&c).contains(lt_clause(d1)),
        assert_where(&c).contains(ge_clause(d0)) && assert_where(&c).contains(lt_clause(d1)),
        price_where(&c).contains(ge_clause(d0)) && price_where(&c).contains(lt_clause(d1)),
        lots_where(&l).contains(ge_clause(d0)) && lots_where(&l).contains(lt_clause(d1)),
{
    let cb = opt_view_ref(&c.begin)->0;
    let ce = opt_view_ref(&c.end)->0;
    let cr = opt_view_ref(&c.date_range);
    lemma_bounds_in_date_clauses(cb, ce, cr, d0, d1);
    let dc = date_clauses(Some(cb), Some(ce), cr);
    let lb = opt_view_ref(&l.begin)->0;
    let le = opt_view_ref(&l.end)->0;
    let lr = opt_view_ref(&l.date_range);
    lemma_bounds_in_date_clauses(lb, le, lr, d0, d1);
    let dl = date_clauses(Some(lb), Some(le), lr);
    let w = balance_where(&c);
    assert(w.contains(ge_clause(d0))) by {
        let a = crate::bql::account_clauses(crate::text::views(c.account@));
        assert(w[a.len() as int] == dc[0]);
    }
    assert(w.contains(lt_clause(d1))) by {
        let a = crate::bql::account_clauses(crate::text::views(c.account@));
        assert(w[a.len() + 1int] == dc[1]);
    }
    let w = register_where(&c);
    assert(w.contains(ge_clause(d0))) by {
        let a = crate::bql::account_clauses(crate::text::views(c.account@));
        assert(w[a.len() as int] == dc[0]);
    }
    assert(w.contains(lt_clause(d1))) by {
        let a = crate::bql::account_clauses(crate::text::views(c.account@));
        assert(w[a.len() + 1int] == dc[1]);
    }
    let w = assert_where(&c);
    assert(w.contains(ge_clause(d0))) by {
        let a = crate::bql::account_clauses(crate::text::views(c.account@));
        assert(w[a.len() as int] == dc[0]);
    }
    assert(w.contains(lt_clause(d1))) by {
        let a = crate::bql::account_clauses(crate::text::views(c.account@));
        assert(w[a.len() + 1int] == dc[1]);
    }
    let w = price_where(&c);
    assert(w.contains(ge_clause(d0))) by {
        let a = crate::commands::price::commodity_clauses(crate::commands::price::commodities(crate::text::views(c.account@)));
        assert(w[a.len() as int] == dc[0]);
    }
    assert(w.contains(lt_clause(d1))) by {
        let a = crate::commands::price::commodity_clauses(crate::commands::price::commodities(crate::text::views(c.account@)));
        assert(w[a.len() + 1int] == dc[1]);
    }
    let w = lots_where(&l);
    assert(w.contains(ge_clause(d0))) by {
        let a = crate::bql::account_clauses(crate::text::views(l.account@));
        assert(w[a.len() as int] == dl[0]);
    }
    assert(w.contains(lt_clause(d1))) by {
        let a = crate::bql::account_clauses(crate::text::views(l.account@));
        assert(w[a.len() + 1int] == dl[1]);
    }
}


/// The exchange currency reaches a query only upper-cased: two spellings
/// that upper-case alike (`eur`, `Eur`, `EUR`) give the same balance,
/// register and lots queries.
pub proof fn law_exchange_only_upper_cased(c1: CommonOptions, c2: CommonOptions, l1: LotsOptions, l2: LotsOptions)
    requires
        c2 == (CommonOptions { exchange: c2.exchange, ..c1 }),
        l2 == (LotsOptions { exchange: l2.exchange, ..l1 }),
        opt_view_ref(&c1.exchange) matches Some(a) && opt_view_ref(&c2.exchange) matches Some(b) && unicode_upper(a)
            == unicode_upper(b),
        opt_view_ref(&l1.exchange) matches Some(a) && opt_view_ref(&l2.exchange) matches Some(b) && unicode_upper(a)
            == unicode_upper(b),
    ensures
        balance_query(&c1) == balance_query(&c2),
        register_query(&c1) == register_query(&c2),
        lots_query(&l1) == lots_query(&l2),
{
}

} // verus!

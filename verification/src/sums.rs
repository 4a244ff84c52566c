//! Sums of amounts per currency, and per name and currency, held in lists
//! sorted by name. The additions are `rust_decimal`'s checked ones, made in
//! the order in which the amounts come.
use vstd::prelude::*;
use crate::bql::same_text;
use crate::commands::balance::{pos_view, positions_view, Position};
use crate::decimal::{checked_add, dec_add, Decimal};
use crate::text::{views, lemma_str_lt_asym, lemma_str_lt_total, lemma_str_lt_trans, str_less, str_lt};

verus! {

/// `Decimal::ZERO`, the value a new sum starts from.
pub open spec fn zero_dec() -> Decimal {
    Decimal { mantissa: 0, scale: 0 }
}

/// The sum of the amounts in currency `c` among `items`, added in order
/// from zero as `Decimal::checked_add` adds them; `None` once an addition
/// overflows.
pub open spec fn cur_sum(items: Seq<(Seq<char>, Decimal)>, c: Seq<char>) -> Option<Decimal>
    decreases items.len(),
{
    if items.len() == 0 {
        Some(zero_dec())
    } else {
        match cur_sum(items.drop_last(), c) {
            None => None,
            Some(s) => if items.last().0 == c {
                dec_add(s, items.last().1)
            } else {
                Some(s)
            },
        }
    }
}

/// The names that occur in a list of named values.
pub open spec fn key_set<V>(list: Seq<(Seq<char>, V)>) -> Set<Seq<char>> {
    Set::new(|k: Seq<char>| exists|j: int| 0 <= j < list.len() && list[j].0 == k)
}

/// The names of a list of named values, in order.
pub open spec fn keys_of<V>(list: Seq<(Seq<char>, V)>) -> Seq<Seq<char>> {
    list.map_values(|e: (Seq<char>, V)| e.0)
}

/// Names in strictly increasing order (so each occurs once).
pub open spec fn strictly_sorted(keys: Seq<Seq<char>>) -> bool {
    forall|i: int, j: int| 0 <= i < j < keys.len() ==> str_lt(#[trigger] keys[i], #[trigger] keys[j])
}

/// `list` holds, once for each currency of `items` and in currency order,
/// the sum of that currency's amounts.
pub open spec fn sums_of(list: Seq<(Seq<char>, Decimal)>, items: Seq<(Seq<char>, Decimal)>) -> bool {
    &&& strictly_sorted(keys_of(list))
    &&& key_set(list) == key_set(items)
    &&& forall|i: int| 0 <= i < list.len() ==> cur_sum(items, #[trigger] list[i].0) == Some(list[i].1)
}

/// No running sum of `items` overflows.
pub open spec fn sums_defined(items: Seq<(Seq<char>, Decimal)>) -> bool {
    forall|c: Seq<char>| #[trigger] cur_sum(items, c) is Some
}

/// Every amount is within `rust_decimal`'s range.
pub open spec fn amounts_wf(ps: Seq<Position>) -> bool {
    forall|i: int| 0 <= i < ps.len() ==> (#[trigger] ps[i]).amount.wf()
}

pub proof fn lemma_cur_sum_push(items: Seq<(Seq<char>, Decimal)>, p: (Seq<char>, Decimal), c: Seq<char>)
    ensures
        cur_sum(items.push(p), c) == match cur_sum(items, c) {
            None => None,
            Some(s) => if p.0 == c {
                dec_add(s, p.1)
            } else {
                Some(s)
            },
        },
{
    assert(items.push(p).drop_last() =~= items);
}

/// A currency that does not occur sums to zero.
pub proof fn lemma_cur_sum_absent(items: Seq<(Seq<char>, Decimal)>, c: Seq<char>)
    requires
        !key_set(items).contains(c),
    ensures
        cur_sum(items, c) == Some(zero_dec()),
    decreases items.len(),
{
    if items.len() > 0 {
        let d = items.drop_last();
        assert(!key_set(d).contains(c)) by {
            if key_set(d).contains(c) {
                let j = choose|j: int| 0 <= j < d.len() && d[j].0 == c;
                assert(items[j] == d[j]);
            }
        }
        assert(items[items.len() - 1] == items.last());
        lemma_cur_sum_absent(d, c);
    }
}

/// An overflow stays an overflow whatever is added after it.
pub proof fn lemma_cur_sum_none_extends(items: Seq<(Seq<char>, Decimal)>, more: Seq<(Seq<char>, Decimal)>, c: Seq<char>)
    requires
        cur_sum(items, c) is None,
    ensures
        cur_sum(items + more, c) is None,
    decreases more.len(),
{
    if more.len() == 0 {
        assert(items + more =~= items);
    } else {
        lemma_cur_sum_none_extends(items, more.drop_last(), c);
        assert((items + more).drop_last() =~= items + more.drop_last());
    }
}

/// A list of sums of `items` leaves no sum of `items` undefined.
pub proof fn lemma_sums_of_defined(list: Seq<(Seq<char>, Decimal)>, items: Seq<(Seq<char>, Decimal)>)
    requires
        sums_of(list, items),
    ensures
        sums_defined(items),
{
    assert forall|c: Seq<char>| #[trigger] cur_sum(items, c) is Some by {
        if key_set(items).contains(c) {
            assert(key_set(list).contains(c));
            let i = choose|i: int| 0 <= i < list.len() && list[i].0 == c;
            assert(cur_sum(items, list[i].0) == Some(list[i].1));
        } else {
            lemma_cur_sum_absent(items, c);
        }
    }
}

/// Where a name belongs in a sorted list: after every smaller name, and
/// before every larger one.
pub proof fn lemma_slot(keys: Seq<Seq<char>>, k: int, x: Seq<char>)
    requires
        strictly_sorted(keys),
        0 <= k <= keys.len(),
        forall|m: int| 0 <= m < k ==> str_lt(#[trigger] keys[m], x),
        k < keys.len() ==> !str_lt(keys[k], x) && keys[k] != x,
    ensures
        forall|m: int| k <= m < keys.len() ==> str_lt(x, #[trigger] keys[m]),
        forall|m: int| 0 <= m < keys.len() ==> #[trigger] keys[m] != x,
        strictly_sorted(keys.insert(k, x)),
{
    if k < keys.len() {
        lemma_str_lt_total(keys[k], x);
    }
    assert forall|m: int| k <= m < keys.len() implies str_lt(x, #[trigger] keys[m]) by {
        if m > k {
            lemma_str_lt_trans(x, keys[k], keys[m]);
        }
    }
    assert forall|m: int| 0 <= m < keys.len() implies #[trigger] keys[m] != x by {
        lemma_str_lt_asym(x, keys[m]);
    }
    let ins = keys.insert(k, x);
    assert forall|i: int, j: int| 0 <= i < j < ins.len() implies str_lt(#[trigger] ins[i], #[trigger] ins[j]) by {
        if i < k && j == k {
        } else if i < k && j > k {
            assert(ins[j] == keys[j - 1]);
        } else if i == k {
            assert(ins[j] == keys[j - 1]);
        } else if i > k {
            assert(ins[i] == keys[i - 1]);
            assert(ins[j] == keys[j - 1]);
        }
    }
}

/// The first place in `list` whose currency does not sort before `key`.
fn find_slot(list: &Vec<Position>, key: &String) -> (k: usize)
    ensures
        k <= list.len(),
        forall|m: int| 0 <= m < k ==> str_lt((#[trigger] list@[m]).currency@, key@),
        k < list.len() ==> !str_lt(list@[k as int].currency@, key@),
{
    let mut k: usize = 0;
    while k < list.len() && str_less(list[k].currency.as_str(), key.as_str())
        invariant
            k <= list.len(),
            forall|m: int| 0 <= m < k ==> str_lt((#[trigger] list@[m]).currency@, key@),
        decreases list.len() - k,
    {
        k = k + 1;
    }
    k
}

/// Adds the amount of `p` to the sum of its currency in `list`, which holds
/// the sums of `items`; `false` where that sum overflows.
fn add_position(list: &mut Vec<Position>, p: &Position, Ghost(items): Ghost<Seq<(Seq<char>, Decimal)>>) -> (ok: bool)
    requires
        sums_of(positions_view(old(list)@), items),
        amounts_wf(old(list)@),
        p.amount.wf(),
    ensures
        ok == (cur_sum(items.push(pos_view(*p)), p.currency@) is Some),
        ok ==> sums_of(positions_view(final(list)@), items.push(pos_view(*p))) && amounts_wf(final(list)@),
{
    let ghost old_l = positions_view(list@);
    let ghost np = items.push(pos_view(*p));
    let ghost c = p.currency@;
    proof {
        lemma_cur_sum_push(items, pos_view(*p), c);
        assert forall|x: Seq<char>| x != c implies #[trigger] cur_sum(np, x) == cur_sum(items, x) by {
            lemma_cur_sum_push(items, pos_view(*p), x);
        }
        assert(keys_of(old_l).len() == old_l.len());
    }
    let k = find_slot(list, &p.currency);
    proof {
        assert forall|m: int| 0 <= m < k implies str_lt(#[trigger] keys_of(old_l)[m], c) by {
            assert(keys_of(old_l)[m] == list@[m].currency@);
        }
    }
    if k < list.len() && same_text(list[k].currency.as_str(), p.currency.as_str()) {
        assert(old_l[k as int].0 == c);
        assert(cur_sum(items, c) == Some(list@[k as int].amount));
        match checked_add(list[k].amount, p.amount) {
            None => false,
            Some(sum) => {
                let cur = list[k].currency.clone();
                list.set(k, Position { currency: cur, amount: sum });
                let ghost nl = positions_view(list@);
                assert(nl =~= old_l.update(k as int, (c, sum)));
                assert(keys_of(nl) =~= keys_of(old_l));
                assert forall|i: int| 0 <= i < nl.len() implies cur_sum(np, #[trigger] nl[i].0) == Some(nl[i].1) by {
                    if i != k {
                        assert(keys_of(old_l)[i] == old_l[i].0);
                        assert(keys_of(old_l)[k as int] == old_l[k as int].0);
                        if i < k {
                            lemma_str_lt_asym(old_l[i].0, c);
                        } else {
                            lemma_str_lt_asym(c, old_l[i].0);
                        }
                    }
                }
                assert(key_set(nl) =~= key_set(old_l)) by {
                    assert forall|x: Seq<char>| key_set(old_l).contains(x) implies key_set(nl).contains(x) by {
                        let j = choose|j: int| 0 <= j < old_l.len() && old_l[j].0 == x;
                        assert(nl[j].0 == x);
                    }
                }
                assert(key_set(np) =~= key_set(items)) by {
                    assert forall|x: Seq<char>| key_set(np).contains(x) implies key_set(items).contains(x) by {
                        let j = choose|j: int| 0 <= j < np.len() && np[j].0 == x;
                        if j == items.len() {
                            assert(old_l[k as int].0 == x);
                            assert(key_set(old_l).contains(x));
                        } else {
                            assert(items[j] == np[j]);
                        }
                    }
                    assert forall|x: Seq<char>| key_set(items).contains(x) implies key_set(np).contains(x) by {
                        let j = choose|j: int| 0 <= j < items.len() && items[j].0 == x;
                        assert(np[j] == items[j]);
                    }
                }
                true
            },
        }
    } else {
        proof {
            if k < list.len() {
                assert(keys_of(old_l)[k as int] == list@[k as int].currency@);
            }
            lemma_slot(keys_of(old_l), k as int, c);
            assert(!key_set(old_l).contains(c)) by {
                if key_set(old_l).contains(c) {
                    let j = choose|j: int| 0 <= j < old_l.len() && old_l[j].0 == c;
                    assert(keys_of(old_l)[j] == old_l[j].0);
                }
            }
            lemma_cur_sum_absent(items, c);
        }
        match checked_add(Decimal::zero(), p.amount) {
            None => false,
            Some(sum) => {
                let cur = p.currency.clone();
                list.insert(k, Position { currency: cur, amount: sum });
                let ghost nl = positions_view(list@);
                assert(nl =~= old_l.insert(k as int, (c, sum)));
                assert(keys_of(nl) =~= keys_of(old_l).insert(k as int, c));
                assert forall|i: int| 0 <= i < nl.len() implies cur_sum(np, #[trigger] nl[i].0) == Some(nl[i].1) by {
                    if i < k {
                        assert(nl[i] == old_l[i]);
                        assert(keys_of(old_l)[i] == old_l[i].0);
                    } else if i > k {
                        assert(nl[i] == old_l[i - 1]);
                        assert(keys_of(old_l)[i - 1] == old_l[i - 1].0);
                    }
                }
                assert(key_set(nl) =~= key_set(old_l).insert(c)) by {
                    assert forall|x: Seq<char>| key_set(old_l).contains(x) implies key_set(nl).contains(x) by {
                        let j = choose|j: int| 0 <= j < old_l.len() && old_l[j].0 == x;
                        if j < k {
                            assert(nl[j].0 == x);
                        } else {
                            assert(nl[j + 1].0 == x);
                        }
                    }
                    assert(nl[k as int].0 == c);
                    assert forall|x: Seq<char>| key_set(nl).contains(x) implies key_set(old_l).insert(c).contains(x) by {
                        let j = choose|j: int| 0 <= j < nl.len() && nl[j].0 == x;
                        if j < k {
                            assert(old_l[j].0 == x);
                        } else if j > k {
                            assert(old_l[j - 1].0 == x);
                        }
                    }
                }
                assert(key_set(np) =~= key_set(items).insert(c)) by {
                    assert forall|x: Seq<char>| key_set(np).contains(x) implies key_set(items).insert(c).contains(x) by {
                        let j = choose|j: int| 0 <= j < np.len() && np[j].0 == x;
                        if j < items.len() {
                            assert(items[j] == np[j]);
                        }
                    }
                    assert forall|x: Seq<char>| key_set(items).insert(c).contains(x) implies key_set(np).contains(x) by {
                        if x == c {
                            assert(np[items.len() as int].0 == c);
                        } else {
                            let j = choose|j: int| 0 <= j < items.len() && items[j].0 == x;
                            assert(np[j] == items[j]);
                        }
                    }
                }
                true
            },
        }
    }
}

/// A copy of a list of positions.
pub fn copy_positions(v: &Vec<Position>) -> (r: Vec<Position>)
    ensures
        positions_view(r@) == positions_view(v@),
        amounts_wf(v@) ==> amounts_wf(r@),
{
    let mut r: Vec<Position> = Vec::new();
    let mut i: usize = 0;
    while i < v.len()
        invariant
            i <= v.len(),
            positions_view(r@) == positions_view(v@).take(i as int),
            forall|m: int| 0 <= m < i ==> (#[trigger] r@[m]).amount == v@[m].amount,
            r@.len() == i,
        decreases v.len() - i,
    {
        let p = Position { currency: v[i].currency.clone(), amount: v[i].amount };
        let ghost before = r@;
        r.push(p);
        assert(positions_view(r@) =~= positions_view(before).push(pos_view(v@[i as int])));
        i = i + 1;
        assert(positions_view(v@).take(i as int) =~= positions_view(v@).take(i - 1).push(pos_view(v@[i - 1])));
    }
    assert(positions_view(v@).take(v.len() as int) =~= positions_view(v@));
    r
}

// ---------------------------------------------------------------------------
// Sums per name
// ---------------------------------------------------------------------------

/// The sums of one name (an account), per currency and in currency order.
#[derive(Debug)]
pub struct NameSums {
    pub name: String,
    pub sums: Vec<Position>,
}

/// A name with its sums as `(name, [(currency, amount)])`.
pub open spec fn name_sums_view(e: NameSums) -> (Seq<char>, Seq<(Seq<char>, Decimal)>) {
    (e.name@, positions_view(e.sums@))
}

/// The views of a list of [`NameSums`].
pub open spec fn groups_view(acc: Seq<NameSums>) -> Seq<(Seq<char>, Seq<(Seq<char>, Decimal)>)> {
    acc.map_values(|e: NameSums| name_sums_view(e))
}

/// Every sum is within `rust_decimal`'s range.
pub open spec fn groups_wf(acc: Seq<NameSums>) -> bool {
    forall|i: int| 0 <= i < acc.len() ==> amounts_wf(#[trigger] acc[i].sums@)
}

/// The amounts that the events named `k` bring, in order. An event is a
/// name with the amounts it brings.
pub open spec fn brought_to(events: Seq<(Seq<char>, Seq<(Seq<char>, Decimal)>)>, k: Seq<char>) -> Seq<(Seq<char>, Decimal)>
    decreases events.len(),
{
    if events.len() == 0 {
        Seq::empty()
    } else {
        brought_to(events.drop_last(), k) + if events.last().0 == k {
            events.last().1
        } else {
            Seq::empty()
        }
    }
}

/// `acc` holds, once for each name of `events` and in name order, the sums
/// per currency of what the events with that name bring.
pub open spec fn grouped(
    acc: Seq<(Seq<char>, Seq<(Seq<char>, Decimal)>)>,
    events: Seq<(Seq<char>, Seq<(Seq<char>, Decimal)>)>,
) -> bool {
    &&& strictly_sorted(keys_of(acc))
    &&& key_set(acc) == key_set(events)
    &&& forall|i: int| 0 <= i < acc.len() ==> sums_of((#[trigger] acc[i]).1, brought_to(events, acc[i].0))
}

/// No sum that the events bring, for any name, overflows.
pub open spec fn events_defined(events: Seq<(Seq<char>, Seq<(Seq<char>, Decimal)>)>) -> bool {
    forall|k: Seq<char>| #[trigger] sums_defined(brought_to(events, k))
}

pub proof fn lemma_brought_push(
    events: Seq<(Seq<char>, Seq<(Seq<char>, Decimal)>)>,
    e: (Seq<char>, Seq<(Seq<char>, Decimal)>),
    k: Seq<char>,
)
    ensures
        brought_to(events.push(e), k) == brought_to(events, k) + if e.0 == k {
            e.1
        } else {
            Seq::empty()
        },
{
    assert(events.push(e).drop_last() =~= events);
}

/// A name without events has nothing brought to it.
pub proof fn lemma_brought_absent(events: Seq<(Seq<char>, Seq<(Seq<char>, Decimal)>)>, k: Seq<char>)
    requires
        !key_set(events).contains(k),
    ensures
        brought_to(events, k) == Seq::<(Seq<char>, Decimal)>::empty(),
    decreases events.len(),
{
    if events.len() > 0 {
        let d = events.drop_last();
        assert(!key_set(d).contains(k)) by {
            if key_set(d).contains(k) {
                let j = choose|j: int| 0 <= j < d.len() && d[j].0 == k;
                assert(events[j] == d[j]);
            }
        }
        assert(events[events.len() - 1] == events.last());
        lemma_brought_absent(d, k);
        assert(brought_to(events, k) =~= Seq::<(Seq<char>, Decimal)>::empty());
    }
}

/// What two runs of events bring is what each brings, in order.
pub proof fn lemma_brought_append(
    a: Seq<(Seq<char>, Seq<(Seq<char>, Decimal)>)>,
    b: Seq<(Seq<char>, Seq<(Seq<char>, Decimal)>)>,
    k: Seq<char>,
)
    ensures
        brought_to(a + b, k) == brought_to(a, k) + brought_to(b, k),
    decreases b.len(),
{
    if b.len() == 0 {
        assert(a + b =~= a);
        assert(brought_to(a, k) + brought_to(b, k) =~= brought_to(a, k));
    } else {
        lemma_brought_append(a, b.drop_last(), k);
        assert((a + b).drop_last() =~= a + b.drop_last());
        assert((a + b).last() == b.last());
        let tail = if b.last().0 == k {
            b.last().1
        } else {
            Seq::empty()
        };
        assert(brought_to(a, k) + brought_to(b.drop_last(), k) + tail =~= brought_to(a, k) + (brought_to(b.drop_last(), k) + tail));
    }
}

/// An overflow among some events stays one whatever events follow.
pub proof fn lemma_events_undefined_extends(
    a: Seq<(Seq<char>, Seq<(Seq<char>, Decimal)>)>,
    b: Seq<(Seq<char>, Seq<(Seq<char>, Decimal)>)>,
)
    requires
        !events_defined(a),
    ensures
        !events_defined(a + b),
{
    let k = choose|k: Seq<char>| !#[trigger] sums_defined(brought_to(a, k));
    let c = choose|c: Seq<char>| !(#[trigger] cur_sum(brought_to(a, k), c) is Some);
    lemma_brought_append(a, b, k);
    lemma_cur_sum_none_extends(brought_to(a, k), brought_to(b, k), c);
    assert(!sums_defined(brought_to(a + b, k)));
}

/// The first place in `acc` whose name does not sort before `name`.
fn find_name(acc: &Vec<NameSums>, name: &String) -> (k: usize)
    ensures
        k <= acc.len(),
        forall|m: int| 0 <= m < k ==> str_lt((#[trigger] acc@[m]).name@, name@),
        k < acc.len() ==> !str_lt(acc@[k as int].name@, name@),
{
    let mut k: usize = 0;
    while k < acc.len() && str_less(acc[k].name.as_str(), name.as_str())
        invariant
            k <= acc.len(),
            forall|m: int| 0 <= m < k ==> str_lt((#[trigger] acc@[m]).name@, name@),
        decreases acc.len() - k,
    {
        k = k + 1;
    }
    k
}

/// Where the sums of `name` stand in `acc`, if anywhere.
pub fn lookup_name(acc: &Vec<NameSums>, name: &String) -> (r: Option<usize>)
    ensures
        match r {
            Some(i) => i < acc.len() && acc@[i as int].name@ == name@,
            None => !key_set(groups_view(acc@)).contains(name@),
        },
{
    let mut i: usize = 0;
    while i < acc.len()
        invariant
            i <= acc.len(),
            forall|m: int| 0 <= m < i ==> (#[trigger] acc@[m]).name@ != name@,
        decreases acc.len() - i,
    {
        if same_text(acc[i].name.as_str(), name.as_str()) {
            return Some(i);
        }
        i = i + 1;
    }
    assert(!key_set(groups_view(acc@)).contains(name@)) by {
        if key_set(groups_view(acc@)).contains(name@) {
            let j = choose|j: int| 0 <= j < groups_view(acc@).len() && groups_view(acc@)[j].0 == name@;
            assert(acc@[j].name@ == name@);
        }
    }
    None
}

/// Adds the event `(name, poss)`: the amounts of `poss` go into the sums of
/// `name` in `acc`, which holds the sums of `events`; `false` where a sum
/// of that name overflows.
pub(crate) fn add_event(
    acc: &mut Vec<NameSums>,
    name: &String,
    poss: &Vec<Position>,
    Ghost(events): Ghost<Seq<(Seq<char>, Seq<(Seq<char>, Decimal)>)>>,
) -> (ok: bool)
    requires
        grouped(groups_view(old(acc)@), events),
        groups_wf(old(acc)@),
        amounts_wf(poss@),
    ensures
        ok == sums_defined(brought_to(events.push((name@, positions_view(poss@))), name@)),
        ok ==> grouped(groups_view(final(acc)@), events.push((name@, positions_view(poss@))))
            && groups_wf(final(acc)@),
{
    let ghost pv = positions_view(poss@);
    let ghost ev2 = events.push((name@, pv));
    let ghost items = brought_to(events, name@);
    let ghost old_g = groups_view(acc@);
    let ghost old_acc = acc@;
    proof {
        lemma_brought_push(events, (name@, pv), name@);
        assert forall|x: Seq<char>| x != name@ implies #[trigger] brought_to(ev2, x) == brought_to(events, x) by {
            lemma_brought_push(events, (name@, pv), x);
            assert(brought_to(events, x) + Seq::<(Seq<char>, Decimal)>::empty() =~= brought_to(events, x));
        }
        assert(keys_of(old_g).len() == old_g.len());
    }
    let k = find_name(acc, name);
    proof {
        assert forall|m: int| 0 <= m < k implies str_lt(#[trigger] keys_of(old_g)[m], name@) by {
            assert(keys_of(old_g)[m] == acc@[m].name@);
        }
    }
    let found = k < acc.len() && same_text(acc[k].name.as_str(), name.as_str());
    let mut entry = if found {
        acc.remove(k)
    } else {
        NameSums { name: name.clone(), sums: Vec::new() }
    };
    proof {
        if found {
            assert(old_g[k as int] == name_sums_view(entry));
            assert(sums_of(old_g[k as int].1, brought_to(events, old_g[k as int].0)));
        } else {
            if k < old_acc.len() {
                assert(keys_of(old_g)[k as int] == old_acc[k as int].name@);
            }
            lemma_slot(keys_of(old_g), k as int, name@);
            assert(!key_set(events).contains(name@)) by {
                if key_set(old_g).contains(name@) {
                    let j = choose|j: int| 0 <= j < old_g.len() && old_g[j].0 == name@;
                    assert(keys_of(old_g)[j] == old_g[j].0);
                }
            }
            lemma_brought_absent(events, name@);
            assert(key_set(positions_view(entry.sums@)) =~= key_set(items));
        }
        assert(items + pv.take(0) =~= items);
    }
    let mut j: usize = 0;
    while j < poss.len()
        invariant
            j <= poss.len(),
            pv == positions_view(poss@),
            entry.name@ == name@,
            sums_of(positions_view(entry.sums@), items + pv.take(j as int)),
            amounts_wf(entry.sums@),
            amounts_wf(poss@),
            items + pv == brought_to(ev2, name@),
            ev2 == events.push((name@, positions_view(poss@))),
        decreases poss.len() - j,
    {
        let ghost cur = items + pv.take(j as int);
        let ok = add_position(&mut entry.sums, &poss[j], Ghost(cur));
        assert(cur.push(pos_view(poss@[j as int])) =~= items + pv.take(j + 1));
        if !ok {
            proof {
                let c = poss@[j as int].currency@;
                assert(cur_sum(items + pv.take(j + 1), c) is None);
                lemma_cur_sum_none_extends(items + pv.take(j + 1), pv.skip(j + 1), c);
                assert(items + pv.take(j + 1) + pv.skip(j + 1) =~= items + pv);
                assert(!(cur_sum(brought_to(ev2, name@), c) is Some));
                assert(!sums_defined(brought_to(ev2, name@)));
            }
            return false;
        }
        j = j + 1;
    }
    assert(pv.take(poss.len() as int) =~= pv);
    proof {
        lemma_sums_of_defined(positions_view(entry.sums@), items + pv);
    }
    let ghost ent = name_sums_view(entry);
    acc.insert(k, entry);
    let ghost ng = groups_view(acc@);
    proof {
        if found {
            assert(acc@ =~= old_acc.update(k as int, entry));
            assert(ng =~= old_g.update(k as int, ent));
            assert(keys_of(ng) =~= keys_of(old_g)) by {
                assert(old_g[k as int].0 == name@);
            }
            assert forall|i: int| 0 <= i < ng.len() implies sums_of((#[trigger] ng[i]).1, brought_to(ev2, ng[i].0)) by {
                if i != k {
                    assert(keys_of(old_g)[i] == old_g[i].0);
                    assert(keys_of(old_g)[k as int] == old_g[k as int].0);
                    if i < k {
                        lemma_str_lt_asym(old_g[i].0, name@);
                    } else {
                        lemma_str_lt_asym(name@, old_g[i].0);
                    }
                    assert(ng[i] == old_g[i]);
                }
            }
            assert(key_set(ng) =~= key_set(old_g)) by {
                assert forall|x: Seq<char>| key_set(old_g).contains(x) implies key_set(ng).contains(x) by {
                    let m = choose|m: int| 0 <= m < old_g.len() && old_g[m].0 == x;
                    assert(ng[m].0 == x);
                }
                assert forall|x: Seq<char>| key_set(ng).contains(x) implies key_set(old_g).contains(x) by {
                    let m = choose|m: int| 0 <= m < ng.len() && ng[m].0 == x;
                    assert(old_g[m].0 == x);
                }
            }
            assert(key_set(ev2) =~= key_set(events)) by {
                assert forall|x: Seq<char>| key_set(ev2).contains(x) implies key_set(events).contains(x) by {
                    let m = choose|m: int| 0 <= m < ev2.len() && ev2[m].0 == x;
                    if m == events.len() {
                        assert(key_set(old_g).contains(x)) by {
                            assert(old_g[k as int].0 == x);
                        }
                    } else {
                        assert(events[m] == ev2[m]);
                    }
                }
                assert forall|x: Seq<char>| key_set(events).contains(x) implies key_set(ev2).contains(x) by {
                    let m = choose|m: int| 0 <= m < events.len() && events[m].0 == x;
                    assert(ev2[m] == events[m]);
                }
            }
        } else {
            assert(acc@ =~= old_acc.insert(k as int, entry));
            assert(ng =~= old_g.insert(k as int, ent));
            assert(keys_of(ng) =~= keys_of(old_g).insert(k as int, name@));
            assert forall|i: int| 0 <= i < ng.len() implies sums_of((#[trigger] ng[i]).1, brought_to(ev2, ng[i].0)) by {
                if i < k {
                    assert(ng[i] == old_g[i]);
                    assert(keys_of(old_g)[i] == old_g[i].0);
                } else if i > k {
                    assert(ng[i] == old_g[i - 1]);
                    assert(keys_of(old_g)[i - 1] == old_g[i - 1].0);
                }
            }
            assert(key_set(ng) =~= key_set(old_g).insert(name@)) by {
                assert forall|x: Seq<char>| key_set(old_g).contains(x) implies key_set(ng).contains(x) by {
                    let m = choose|m: int| 0 <= m < old_g.len() && old_g[m].0 == x;
                    if m < k {
                        assert(ng[m].0 == x);
                    } else {
                        assert(ng[m + 1].0 == x);
                    }
                }
                assert(ng[k as int].0 == name@);
                assert forall|x: Seq<char>| key_set(ng).contains(x) implies key_set(old_g).insert(name@).contains(x) by {
                    let m = choose|m: int| 0 <= m < ng.len() && ng[m].0 == x;
                    if m < k {
                        assert(old_g[m].0 == x);
                    } else if m > k {
                        assert(old_g[m - 1].0 == x);
                    }
                }
            }
            assert(key_set(ev2) =~= key_set(events).insert(name@)) by {
                assert forall|x: Seq<char>| key_set(ev2).contains(x) implies key_set(events).insert(name@).contains(x) by {
                    let m = choose|m: int| 0 <= m < ev2.len() && ev2[m].0 == x;
                    if m < events.len() {
                        assert(events[m] == ev2[m]);
                    }
                }
                assert forall|x: Seq<char>| key_set(events).insert(name@).contains(x) implies key_set(ev2).contains(x) by {
                    if x == name@ {
                        assert(ev2[events.len() as int].0 == name@);
                    } else {
                        let m = choose|m: int| 0 <= m < events.len() && events[m].0 == x;
                        assert(ev2[m] == events[m]);
                    }
                }
            }
        }
        assert forall|i: int| 0 <= i < acc@.len() implies amounts_wf(#[trigger] acc@[i].sums@) by {
            if found {
                if i != k {
                    assert(acc@[i] == old_acc[i]);
                }
            } else if i < k {
                assert(acc@[i] == old_acc[i]);
            } else if i > k {
                assert(acc@[i] == old_acc[i - 1]);
            }
        }
    }
    true
}

/// Each name of `names` paired with the same amounts `ps`.
pub open spec fn named_events(names: Seq<Seq<char>>, ps: Seq<(Seq<char>, Decimal)>) -> Seq<(Seq<char>, Seq<(Seq<char>, Decimal)>)> {
    names.map_values(|n: Seq<char>| (n, ps))
}

/// Adds the events `(names[d], poss)` for each `d` in order; `false` where
/// a sum overflows.
pub(crate) fn add_named_events(
    acc: &mut Vec<NameSums>,
    names: &Vec<String>,
    poss: &Vec<Position>,
    Ghost(events): Ghost<Seq<(Seq<char>, Seq<(Seq<char>, Decimal)>)>>,
) -> (ok: bool)
    requires
        grouped(groups_view(old(acc)@), events),
        groups_wf(old(acc)@),
        amounts_wf(poss@),
    ensures
        ok ==> grouped(groups_view(final(acc)@), events + named_events(views(names@), positions_view(poss@)))
            && groups_wf(final(acc)@),
        !ok ==> !events_defined(events + named_events(views(names@), positions_view(poss@))),
{
    let ghost all = named_events(views(names@), positions_view(poss@));
    assert(events + all.take(0) =~= events);
    let mut d: usize = 0;
    while d < names.len()
        invariant
            d <= names.len(),
            all == named_events(views(names@), positions_view(poss@)),
            grouped(groups_view(acc@), events + all.take(d as int)),
            groups_wf(acc@),
            amounts_wf(poss@),
        decreases names.len() - d,
    {
        let ghost cur = events + all.take(d as int);
        let ok = add_event(acc, &names[d], poss, Ghost(cur));
        assert(cur.push((names@[d as int]@, positions_view(poss@))) =~= events + all.take(d + 1));
        if !ok {
            proof {
                let e = (names@[d as int]@, positions_view(poss@));
                assert(!events_defined(cur.push(e))) by {
                    assert(!sums_defined(brought_to(cur.push(e), names@[d as int]@)));
                }
                lemma_events_undefined_extends(cur.push(e), all.skip(d + 1));
                assert(cur.push(e) + all.skip(d + 1) =~= events + all);
            }
            return false;
        }
        d = d + 1;
    }
    assert(all.take(names.len() as int) =~= all);
    true
}

/// Sums hold a currency exactly when some item has it, so there are none
/// exactly when there are no items.
pub proof fn lemma_sums_of_empty(list: Seq<(Seq<char>, Decimal)>, items: Seq<(Seq<char>, Decimal)>)
    requires
        sums_of(list, items),
    ensures
        list.len() == 0 <==> items.len() == 0,
{
    if items.len() > 0 {
        assert(key_set(items).contains(items[0].0));
        if list.len() == 0 {
            assert(key_set(list).contains(items[0].0));
            let j = choose|j: int| 0 <= j < list.len() && list[j].0 == items[0].0;
        }
    }
    if list.len() > 0 {
        assert(key_set(list).contains(list[0].0));
        if items.len() == 0 {
            assert(key_set(items).contains(list[0].0));
            let j = choose|j: int| 0 <= j < items.len() && items[j].0 == list[0].0;
        }
    }
}

/// Adds the amounts of `poss`, in order, to `list`, which holds the sums of
/// `items`; `false` where a sum overflows.
pub(crate) fn add_positions(list: &mut Vec<Position>, poss: &Vec<Position>, Ghost(items): Ghost<Seq<(Seq<char>, Decimal)>>) -> (ok: bool)
    requires
        sums_of(positions_view(old(list)@), items),
        amounts_wf(old(list)@),
        amounts_wf(poss@),
    ensures
        ok ==> sums_of(positions_view(final(list)@), items + positions_view(poss@)) && amounts_wf(final(list)@),
        !ok ==> !sums_defined(items + positions_view(poss@)),
{
    let ghost pv = positions_view(poss@);
    assert(items + pv.take(0) =~= items);
    let mut j: usize = 0;
    while j < poss.len()
        invariant
            j <= poss.len(),
            pv == positions_view(poss@),
            sums_of(positions_view(list@), items + pv.take(j as int)),
            amounts_wf(list@),
            amounts_wf(poss@),
        decreases poss.len() - j,
    {
        let ghost cur = items + pv.take(j as int);
        let ok = add_position(list, &poss[j], Ghost(cur));
        assert(cur.push(pos_view(poss@[j as int])) =~= items + pv.take(j + 1));
        if !ok {
            proof {
                let c = poss@[j as int].currency@;
                assert(cur_sum(items + pv.take(j + 1), c) is None);
                lemma_cur_sum_none_extends(items + pv.take(j + 1), pv.skip(j + 1), c);
                assert(items + pv.take(j + 1) + pv.skip(j + 1) =~= items + pv);
                assert(!(cur_sum(items + pv, c) is Some));
            }
            return false;
        }
        j = j + 1;
    }
    assert(pv.take(poss.len() as int) =~= pv);
    true
}

/// An overflow among some amounts stays one whatever amounts follow.
pub proof fn lemma_sums_undefined_extends(a: Seq<(Seq<char>, Decimal)>, b: Seq<(Seq<char>, Decimal)>)
    requires
        !sums_defined(a),
    ensures
        !sums_defined(a + b),
{
    let c = choose|c: Seq<char>| !(#[trigger] cur_sum(a, c) is Some);
    lemma_cur_sum_none_extends(a, b, c);
    assert(!(cur_sum(a + b, c) is Some));
}

/// Adds one position to the sums of its currency (see [`add_positions`]);
/// `false` where that sum overflows.
pub(crate) fn add_position_to(list: &mut Vec<Position>, p: &Position, Ghost(items): Ghost<Seq<(Seq<char>, Decimal)>>) -> (ok: bool)
    requires
        sums_of(positions_view(old(list)@), items),
        amounts_wf(old(list)@),
        p.amount.wf(),
    ensures
        ok ==> sums_of(positions_view(final(list)@), items.push(pos_view(*p))) && amounts_wf(final(list)@),
        !ok ==> !sums_defined(items.push(pos_view(*p))),
{
    add_position(list, p, Ghost(items))
}

} // verus!

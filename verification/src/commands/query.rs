//! `query`: the named queries saved in the ledger file
//! (`2025-09-02 query "name" "BQL"`), and how a name picks one.
use vstd::prelude::*;
use crate::json::{field, Json};
use crate::runner::{column_names, column_names_exec, take_member};
use crate::text::{
    chars_of, contains, contains_str, eq_ignore_ascii_case, eq_ignore_ascii_case_str, find, find_str,
    lemma_find_from_bounds, split_char, split_on_char, string_from_range, to_lowercase, trim, trim_start,
    trim_start_str, trim_str, unicode_lower, views,
};

verus! {

/// A named query of the ledger file.
#[derive(Debug, Clone)]
pub struct QueryEntry {
    pub name: String,
    pub query_string: String,
}

/// A query entry as `(name, query)`.
pub open spec fn entry_view(e: QueryEntry) -> (Seq<char>, Seq<char>) {
    (e.name@, e.query_string@)
}

/// Query entries as `(name, query)` pairs.
pub open spec fn entries_view(es: Seq<QueryEntry>) -> Seq<(Seq<char>, Seq<char>)> {
    es.map_values(|e: QueryEntry| entry_view(e))
}

/// A line without the `\r` that precedes its `\n`.
pub open spec fn strip_cr(line: Seq<char>) -> Seq<char> {
    if line.len() > 0 && line.last() == '\r' {
        line.drop_last()
    } else {
        line
    }
}

/// The lines of a text, like `str::lines`: split at `\n`, a `\r` before
/// the `\n` dropped, and no line after a final `\n`.
pub open spec fn text_lines(text: Seq<char>) -> Seq<Seq<char>> {
    let parts = split_char(text, '\n');
    let n = parts.len() as int;
    let k = if parts[n - 1].len() == 0 { n - 1 } else { n };
    Seq::new(k as nat, |i: int| if i < n - 1 { strip_cr(parts[i]) } else { parts[i] })
}

/// The name and query of a directive, read from what follows `query `:
/// the first two double-quoted strings, or the error for the quote that is
/// missing.
pub open spec fn directive_parts(a: Seq<char>) -> Result<(Seq<char>, Seq<char>), Seq<char>> {
    match find(a, "\""@) {
        None => Err("Invalid query directive: missing opening quote for name"@),
        Some(ns) => match find(a.skip(ns + 1), "\""@) {
            None => Err("Invalid query directive: missing closing quote for name"@),
            Some(ne0) => {
                let ne = ne0 + ns + 1;
                let after = a.skip(ne + 1);
                match find(after, "\""@) {
                    None => Err("Invalid query directive: missing opening quote for query"@),
                    Some(qs) => match find(after.skip(qs + 1), "\""@) {
                        None => Err("Invalid query directive: missing closing quote for query"@),
                        Some(qe0) => Ok((a.subrange(ns + 1, ne), after.subrange(qs + 1, qs + 1 + qe0))),
                    },
                }
            },
        },
    }
}

/// What a line of the ledger file holds: nothing (blank, a `;` comment, or
/// no `query ` in it), or a query directive, read after the first
/// `query `.
pub open spec fn line_directive(line: Seq<char>) -> Option<Result<(Seq<char>, Seq<char>), Seq<char>>> {
    let t = trim(line);
    if t.len() == 0 || t[0] == ';' {
        None
    } else {
        match find(t, "query "@) {
            None => None,
            Some(idx) => Some(directive_parts(trim_start(t.skip(idx + 6)))),
        }
    }
}

/// The query directives of some lines, in order; the first malformed one
/// is the error.
pub open spec fn directives(lines: Seq<Seq<char>>) -> Result<Seq<(Seq<char>, Seq<char>)>, Seq<char>>
    decreases lines.len(),
{
    if lines.len() == 0 {
        Ok(Seq::empty())
    } else {
        match directives(lines.drop_last()) {
            Err(e) => Err(e),
            Ok(qs) => match line_directive(lines.last()) {
                None => Ok(qs),
                Some(Err(e)) => Err(e),
                Some(Ok(q)) => Ok(qs.push(q)),
            },
        }
    }
}

/// Where a double quote is in `cs` from `lo` on, relative to `lo`.
fn find_quote(cs: &Vec<char>, lo: usize) -> (r: Option<usize>)
    requires
        lo <= cs.len(),
    ensures
        r matches Some(k) ==> find(cs@.skip(lo as int), "\""@) == Some(k as int) && lo + k + 1 <= cs.len(),
        r is None ==> find(cs@.skip(lo as int), "\""@) is None,
{
    let rest = string_from_range(cs, lo, cs.len());
    assert(rest@ =~= cs@.skip(lo as int));
    let r = find_str(rest.as_str(), "\"");
    proof {
        reveal_strlit("\"");
        lemma_find_from_bounds(rest@, "\""@, 0);
    }
    r
}

fn parse_directive(a: &str) -> (r: Result<(String, String), String>)
    ensures
        match r {
            Ok((n, q)) => directive_parts(a@) == Ok::<(Seq<char>, Seq<char>), Seq<char>>((n@, q@)),
            Err(e) => directive_parts(a@) == Err::<(Seq<char>, Seq<char>), Seq<char>>(e@),
        },
{
    let ac = chars_of(a);
    assert(ac@.skip(0) =~= a@);
    let ns = match find_quote(&ac, 0) {
        Some(k) => k,
        None => return Err(String::from_str("Invalid query directive: missing opening quote for name")),
    };
    let ne = match find_quote(&ac, ns + 1) {
        Some(k) => k + ns + 1,
        None => return Err(String::from_str("Invalid query directive: missing closing quote for name")),
    };
    let name = string_from_range(&ac, ns + 1, ne);
    let qs0 = match find_quote(&ac, ne + 1) {
        Some(k) => k,
        None => return Err(String::from_str("Invalid query directive: missing opening quote for query")),
    };
    let qs = ne + 1 + qs0;
    let qe = match find_quote(&ac, qs + 1) {
        Some(k) => k + qs + 1,
        None => {
            assert(a@.skip(ne + 1).skip(qs0 + 1) =~= ac@.skip(qs + 1));
            return Err(String::from_str("Invalid query directive: missing closing quote for query"));
        },
    };
    let query = string_from_range(&ac, qs + 1, qe);
    proof {
        let after = a@.skip(ne + 1);
        assert(after.skip(qs0 + 1) =~= ac@.skip(qs + 1));
        assert(after.subrange(qs0 + 1, qs0 + 1 + (qe - qs - 1)) =~= ac@.subrange(qs + 1, qe as int));
    }
    Ok((name, query))
}

fn line_directive_exec(line: &str) -> (r: Option<Result<(String, String), String>>)
    ensures
        match r {
            None => line_directive(line@) is None,
            Some(Ok((n, q))) => line_directive(line@) == Some(Ok::<(Seq<char>, Seq<char>), Seq<char>>((n@, q@))),
            Some(Err(e)) => line_directive(line@) == Some(Err::<(Seq<char>, Seq<char>), Seq<char>>(e@)),
        },
{
    let t = trim_str(line);
    let tc = chars_of(t.as_str());
    if tc.len() == 0 || tc[0] == ';' {
        return None;
    }
    match find_str(t.as_str(), "query ") {
        None => None,
        Some(idx) => {
            proof {
                reveal_strlit("query ");
                lemma_find_from_bounds(t@, "query "@, 0);
            }
            let rest = string_from_range(&tc, idx + 6, tc.len());
            assert(rest@ =~= t@.skip(idx + 6));
            let a = trim_start_str(rest.as_str());
            Some(parse_directive(a.as_str()))
        },
    }
}

/// Reads the query directives of a ledger file's text, in order; a
/// malformed directive is the error.
pub fn parse_ledger_queries(content: &str) -> (r: Result<Vec<QueryEntry>, String>)
    ensures
        match r {
            Ok(es) => directives(text_lines(content@)) == Ok::<Seq<(Seq<char>, Seq<char>)>, Seq<char>>(entries_view(es@)),
            Err(e) => directives(text_lines(content@)) == Err::<Seq<(Seq<char>, Seq<char>)>, Seq<char>>(e@),
        },
{
    let parts = split_on_char(content, '\n');
    let ghost pv = views(parts@);
    let ghost lines = text_lines(content@);
    proof {
        crate::text::lemma_split_char_nonempty(content@, '\n');
    }
    let n = parts.len();
    let k = if parts[n - 1].unicode_len() == 0 { n - 1 } else { n };
    assert(lines.len() == k);
    let mut out: Vec<QueryEntry> = Vec::new();
    let mut i: usize = 0;
    assert(lines.take(0) =~= Seq::<Seq<char>>::empty());
    assert(entries_view(out@) =~= Seq::<(Seq<char>, Seq<char>)>::empty());
    while i < k
        invariant
            i <= k <= n == parts.len(),
            n >= 1,
            pv == views(parts@),
            pv == split_char(content@, '\n'),
            lines == text_lines(content@),
            lines.len() == k,
            directives(lines.take(i as int)) == Ok::<Seq<(Seq<char>, Seq<char>)>, Seq<char>>(entries_view(out@)),
        decreases k - i,
    {
        let raw = &parts[i];
        let line = if i < n - 1 {
            let rc = chars_of(raw.as_str());
            if rc.len() > 0 && rc[rc.len() - 1] == '\r' {
                string_from_range(&rc, 0, rc.len() - 1)
            } else {
                raw.clone()
            }
        } else {
            raw.clone()
        };
        assert(line@ == lines[i as int]) by {
            if i < n - 1 {
                let rc = raw@;
                if rc.len() > 0 && rc.last() == '\r' {
                    assert(rc.subrange(0, rc.len() - 1) =~= rc.drop_last());
                }
            }
        }
        assert(lines.take(i + 1).drop_last() =~= lines.take(i as int));
        match line_directive_exec(line.as_str()) {
            None => {},
            Some(Ok((name, query_string))) => {
                let ghost before = out@;
                out.push(QueryEntry { name, query_string });
                assert(entries_view(out@) =~= entries_view(before).push((name@, query_string@)));
            },
            Some(Err(e)) => {
                proof {
                    lemma_directives_err_extends(lines, i + 1, e@);
                }
                return Err(e);
            },
        }
        i = i + 1;
    }
    assert(lines.take(k as int) =~= lines);
    Ok(out)
}

proof fn lemma_directives_err_extends(lines: Seq<Seq<char>>, i: int, e: Seq<char>)
    requires
        0 <= i <= lines.len(),
        directives(lines.take(i)) == Err::<Seq<(Seq<char>, Seq<char>)>, Seq<char>>(e),
    ensures
        directives(lines) == Err::<Seq<(Seq<char>, Seq<char>)>, Seq<char>>(e),
    decreases lines.len() - i,
{
    if i == lines.len() {
        assert(lines.take(i) =~= lines);
    } else {
        assert(lines.take(i + 1).drop_last() =~= lines.take(i));
        lemma_directives_err_extends(lines, i + 1, e);
    }
}

// ---------------------------------------------------------------------------
// Choosing a query by name
// ---------------------------------------------------------------------------

/// The first entry named exactly `name`.
pub open spec fn first_exact(es: Seq<(Seq<char>, Seq<char>)>, name: Seq<char>) -> Option<int>
    decreases es.len(),
{
    if es.len() == 0 {
        None
    } else {
        match first_exact(es.drop_last(), name) {
            Some(i) => Some(i),
            None => if es.last().0 == name {
                Some(es.len() - 1)
            } else {
                None
            },
        }
    }
}

/// The first entry whose name equals `name` ignoring ASCII case.
pub open spec fn first_ascii_ci(es: Seq<(Seq<char>, Seq<char>)>, name: Seq<char>) -> Option<int>
    decreases es.len(),
{
    if es.len() == 0 {
        None
    } else {
        match first_ascii_ci(es.drop_last(), name) {
            Some(i) => Some(i),
            None => if eq_ignore_ascii_case(es.last().0, name) {
                Some(es.len() - 1)
            } else {
                None
            },
        }
    }
}

/// The first entry whose lower-cased name contains the lower-cased `name`.
pub open spec fn first_partial(es: Seq<(Seq<char>, Seq<char>)>, name: Seq<char>) -> Option<int>
    decreases es.len(),
{
    if es.len() == 0 {
        None
    } else {
        match first_partial(es.drop_last(), name) {
            Some(i) => Some(i),
            None => if contains(unicode_lower(es.last().0), unicode_lower(name)) {
                Some(es.len() - 1)
            } else {
                None
            },
        }
    }
}

/// The entry a name picks: the first exact match, else the first match
/// ignoring ASCII case, else the first partial match (ignoring case).
pub open spec fn chosen_query(es: Seq<(Seq<char>, Seq<char>)>, name: Seq<char>) -> Option<int> {
    match first_exact(es, name) {
        Some(i) => Some(i),
        None => match first_ascii_ci(es, name) {
            Some(i) => Some(i),
            None => first_partial(es, name),
        },
    }
}

proof fn lemma_first_found_bounds(es: Seq<(Seq<char>, Seq<char>)>, name: Seq<char>)
    ensures
        first_exact(es, name) matches Some(i) ==> 0 <= i < es.len() && es[i].0 == name,
        first_ascii_ci(es, name) matches Some(i) ==> 0 <= i < es.len() && eq_ignore_ascii_case(es[i].0, name),
        first_partial(es, name) matches Some(i) ==> 0 <= i < es.len() && contains(unicode_lower(es[i].0), unicode_lower(name)),
    decreases es.len(),
{
    if es.len() > 0 {
        lemma_first_found_bounds(es.drop_last(), name);
    }
}

/// Picks the query a name asks for (see [`chosen_query`]): its query text
/// and its name.
pub fn find_query(entries: &Vec<QueryEntry>, query_name: &str) -> (r: Result<(String, String), String>)
    ensures
        match r {
            Ok((q, n)) => chosen_query(entries_view(entries@), query_name@) matches Some(i) && 0 <= i < entries@.len()
                && entries_view(entries@)[i] == (n@, q@),
            Err(e) => chosen_query(entries_view(entries@), query_name@) is None && e@ == "Query '"@ + query_name@
                + "' not found in the ledger file."@,
        },
{
    let ghost es = entries_view(entries@);
    proof {
        lemma_first_found_bounds(es, query_name@);
    }
    let mut i: usize = 0;
    assert(es.take(0) =~= Seq::<(Seq<char>, Seq<char>)>::empty());
    while i < entries.len()
        invariant
            i <= entries.len(),
            es == entries_view(entries@),
            first_exact(es.take(i as int), query_name@) is None,
        decreases entries.len() - i,
    {
        assert(es.take(i + 1).drop_last() =~= es.take(i as int));
        if crate::bql::same_text(entries[i].name.as_str(), query_name) {
            proof {
                lemma_first_prefix_exact(es, i + 1, query_name@);
            }
            return Ok((entries[i].query_string.clone(), entries[i].name.clone()));
        }
        i = i + 1;
    }
    assert(es.take(entries.len() as int) =~= es);
    let mut i: usize = 0;
    while i < entries.len()
        invariant
            i <= entries.len(),
            es == entries_view(entries@),
            first_exact(es, query_name@) is None,
            first_ascii_ci(es.take(i as int), query_name@) is None,
        decreases entries.len() - i,
    {
        assert(es.take(i + 1).drop_last() =~= es.take(i as int));
        if eq_ignore_ascii_case_str(entries[i].name.as_str(), query_name) {
            proof {
                lemma_first_prefix_ci(es, i + 1, query_name@);
            }
            return Ok((entries[i].query_string.clone(), entries[i].name.clone()));
        }
        i = i + 1;
    }
    assert(es.take(entries.len() as int) =~= es);
    let lower = to_lowercase(query_name);
    let mut i: usize = 0;
    while i < entries.len()
        invariant
            i <= entries.len(),
            es == entries_view(entries@),
            lower@ == unicode_lower(query_name@),
            first_exact(es, query_name@) is None,
            first_ascii_ci(es, query_name@) is None,
            first_partial(es.take(i as int), query_name@) is None,
        decreases entries.len() - i,
    {
        assert(es.take(i + 1).drop_last() =~= es.take(i as int));
        let name_lower = to_lowercase(entries[i].name.as_str());
        if contains_str(name_lower.as_str(), lower.as_str()) {
            proof {
                lemma_first_prefix_partial(es, i + 1, query_name@);
            }
            return Ok((entries[i].query_string.clone(), entries[i].name.clone()));
        }
        i = i + 1;
    }
    assert(es.take(entries.len() as int) =~= es);
    let mut e = String::from_str("Query '");
    e.append(query_name);
    e.append("' not found in the ledger file.");
    Err(e)
}

proof fn lemma_first_prefix_exact(es: Seq<(Seq<char>, Seq<char>)>, i: int, name: Seq<char>)
    requires
        0 <= i <= es.len(),
        first_exact(es.take(i), name) is Some,
    ensures
        first_exact(es, name) == first_exact(es.take(i), name),
    decreases es.len() - i,
{
    if i == es.len() {
        assert(es.take(i) =~= es);
    } else {
        assert(es.take(i + 1).drop_last() =~= es.take(i));
        lemma_first_prefix_exact(es, i + 1, name);
    }
}

proof fn lemma_first_prefix_ci(es: Seq<(Seq<char>, Seq<char>)>, i: int, name: Seq<char>)
    requires
        0 <= i <= es.len(),
        first_ascii_ci(es.take(i), name) is Some,
    ensures
        first_ascii_ci(es, name) == first_ascii_ci(es.take(i), name),
    decreases es.len() - i,
{
    if i == es.len() {
        assert(es.take(i) =~= es);
    } else {
        assert(es.take(i + 1).drop_last() =~= es.take(i));
        lemma_first_prefix_ci(es, i + 1, name);
    }
}

proof fn lemma_first_prefix_partial(es: Seq<(Seq<char>, Seq<char>)>, i: int, name: Seq<char>)
    requires
        0 <= i <= es.len(),
        first_partial(es.take(i), name) is Some,
    ensures
        first_partial(es, name) == first_partial(es.take(i), name),
    decreases es.len() - i,
{
    if i == es.len() {
        assert(es.take(i) =~= es);
    } else {
        assert(es.take(i + 1).drop_last() =~= es.take(i));
        lemma_first_prefix_partial(es, i + 1, name);
    }
}

/// The line announcing which query runs, when the query found is named
/// otherwise than asked (ignoring ASCII case): `Running query: {name}`.
pub fn running_query_notice(actual_name: &str, asked: &str) -> (r: Option<String>)
    ensures
        r is None <==> eq_ignore_ascii_case(actual_name@, asked@),
        r matches Some(m) ==> m@ == "Running query: "@ + actual_name@,
{
    if eq_ignore_ascii_case_str(actual_name, asked) {
        None
    } else {
        let mut m = String::from_str("Running query: ");
        m.append(actual_name);
        Some(m)
    }
}

/// The query name: the first positional argument.
pub fn query_name(args: &Vec<String>) -> (r: Result<String, String>)
    ensures
        match r {
            Ok(n) => args@.len() > 0 && n@ == args@[0]@,
            Err(e) => args@.len() == 0 && e@ == "Query name is required"@,
        },
{
    if args.len() == 0 {
        Err(String::from_str("Query name is required"))
    } else {
        Ok(args[0].clone())
    }
}

// ---------------------------------------------------------------------------
// Results
// ---------------------------------------------------------------------------

/// The column names and rows of a query result, as they come; an error
/// when either array is missing (the columns are looked at first).
pub fn columns_and_rows(payload: Json) -> (r: Result<(Vec<String>, Vec<Json>), String>)
    ensures
        match field(payload, "columns"@) {
            Some(Json::Array(_)) => match field(payload, "rows"@) {
                Some(Json::Array(rows)) => r matches Ok((cols, out)) && views(cols@) == column_names(payload)
                    && out@ == rows@,
                _ => r matches Err(e) && e@ == "invalid JSON schema from rledger: missing rows array"@,
            },
            _ => r matches Err(e) && e@ == "invalid JSON schema from rledger: missing columns array"@,
        },
{
    let has_columns = match payload.get("columns") {
        Some(Json::Array(_)) => true,
        _ => false,
    };
    if !has_columns {
        return Err(String::from_str("invalid JSON schema from rledger: missing columns array"));
    }
    let columns = column_names_exec(&payload);
    match take_member(payload, "rows") {
        Some(Json::Array(rows)) => Ok((columns, rows)),
        _ => Err(String::from_str("invalid JSON schema from rledger: missing rows array")),
    }
}

/// An exact name always wins: when some entry is named exactly `name`, the
/// entry picked is the first one so named, whatever other entries match
/// ignoring case or in part.
pub proof fn law_exact_name_wins(es: Seq<(Seq<char>, Seq<char>)>, name: Seq<char>, j: int)
    requires
        0 <= j < es.len(),
        es[j].0 == name,
    ensures
        chosen_query(es, name) matches Some(i) && i <= j && es[i].0 == name && forall|k: int|
            0 <= k < i ==> (#[trigger] es[k]).0 != name,
    decreases es.len(),
{
    lemma_first_exact_first(es, name);
    if j == es.len() - 1 {
        if first_exact(es.drop_last(), name) is None {
            assert(first_exact(es, name) == Some(es.len() - 1));
        }
    } else {
        law_exact_name_wins(es.drop_last(), name, j);
    }
}

proof fn lemma_first_exact_first(es: Seq<(Seq<char>, Seq<char>)>, name: Seq<char>)
    ensures
        first_exact(es, name) matches Some(i) ==> 0 <= i < es.len() && es[i].0 == name && forall|k: int|
            0 <= k < i ==> (#[trigger] es[k]).0 != name,
        first_exact(es, name) is None ==> forall|k: int| 0 <= k < es.len() ==> (#[trigger] es[k]).0 != name,
    decreases es.len(),
{
    if es.len() > 0 {
        let d = es.drop_last();
        lemma_first_exact_first(d, name);
        assert forall|k: int| 0 <= k < d.len() implies #[trigger] es[k] == d[k] by {}
    }
}

// ---------------------------------------------------------------------------
// Listing
// ---------------------------------------------------------------------------

/// The number of bytes that UTF-8 takes for a character.
pub open spec fn char_width(c: char) -> nat {
    if (c as u32) < 0x80 {
        1
    } else if (c as u32) < 0x800 {
        2
    } else if (c as u32) < 0x10000 {
        3
    } else {
        4
    }
}

/// The length in bytes of a text in UTF-8 (`str::len`).
pub open spec fn utf8_len(s: Seq<char>) -> nat
    decreases s.len(),
{
    if s.len() == 0 {
        0
    } else {
        utf8_len(s.drop_last()) + char_width(s.last())
    }
}

/// How many leading characters of `s` fit in `n` bytes.
pub open spec fn chars_within(s: Seq<char>, n: int) -> nat
    decreases s.len(),
{
    if s.len() == 0 {
        0
    } else if char_width(s[0]) <= n {
        1 + chars_within(s.drop_first(), n - char_width(s[0]))
    } else {
        0
    }
}

/// Whether the first `n` bytes of `s` end between two characters (or `s`
/// is no longer than that), so that `&s[..n]` does not panic.
pub open spec fn cut_ok(s: Seq<char>, n: int) -> bool {
    utf8_len(s) <= n || utf8_len(s.take(chars_within(s, n) as int)) == n
}

/// How the list shows a query: its first 50 bytes and `...` when it is
/// longer, else the whole query.
pub open spec fn listed_query(q: Seq<char>) -> Seq<char> {
    if utf8_len(q) > 50 {
        q.take(chars_within(q, 50) as int) + "..."@
    } else {
        q
    }
}

/// The header of the list of saved queries.
pub open spec fn list_header() -> Seq<Seq<char>> {
    seq!["Name"@, "Query (first 50 chars)"@]
}

proof fn lemma_utf8_len_append(a: Seq<char>, b: Seq<char>)
    ensures
        utf8_len(a + b) == utf8_len(a) + utf8_len(b),
    decreases b.len(),
{
    if b.len() == 0 {
        assert(a + b =~= a);
    } else {
        lemma_utf8_len_append(a, b.drop_last());
        assert((a + b).drop_last() =~= a + b.drop_last());
    }
}

fn width_exec(c: char) -> (w: usize)
    ensures
        w == char_width(c),
{
    if (c as u32) < 0x80 {
        1
    } else if (c as u32) < 0x800 {
        2
    } else if (c as u32) < 0x10000 {
        3
    } else {
        4
    }
}

/// How many leading characters fit in `n` bytes, and how many bytes they
/// take.
fn cut_at(cs: &Vec<char>, n: usize) -> (r: (usize, usize))
    ensures
        r.0 == chars_within(cs@, n as int),
        r.1 == utf8_len(cs@.take(r.0 as int)),
        r.1 <= n,
        r.0 <= cs.len(),
        r.0 < cs.len() <==> utf8_len(cs@) > n,
{
    let mut i: usize = 0;
    let mut used: usize = 0;
    assert(cs@.skip(0) =~= cs@);
    assert(cs@.take(0) =~= Seq::<char>::empty());
    while i < cs.len() && width_exec(cs[i]) <= n - used
        invariant
            i <= cs.len(),
            used <= n,
            used == utf8_len(cs@.take(i as int)),
            chars_within(cs@, n as int) == i + chars_within(cs@.skip(i as int), n - used),
        decreases cs.len() - i,
    {
        let w = width_exec(cs[i]);
        assert(cs@.skip(i as int).drop_first() =~= cs@.skip(i + 1));
        assert(cs@.skip(i as int)[0] == cs@[i as int]);
        assert(cs@.take(i + 1).drop_last() =~= cs@.take(i as int));
        used = used + w;
        i = i + 1;
    }
    proof {
        if i < cs.len() {
            assert(cs@.skip(i as int)[0] == cs@[i as int]);
            let rest = cs@.skip(i as int);
            assert(cs@ =~= cs@.take(i as int) + rest);
            lemma_utf8_len_append(cs@.take(i as int), rest);
            assert(rest =~= seq![cs@[i as int]] + rest.drop_first());
            lemma_utf8_len_append(seq![cs@[i as int]], rest.drop_first());
            assert(seq![cs@[i as int]].drop_last() =~= Seq::<char>::empty());
        } else {
            assert(cs@.take(i as int) =~= cs@);
            assert(cs@.skip(i as int) =~= Seq::<char>::empty());
        }
    }
    (i, used)
}

/// How the list shows a query (see [`listed_query`]).
pub fn list_query_text(q: &str) -> (r: String)
    requires
        cut_ok(q@, 50),
    ensures
        r@ == listed_query(q@),
{
    let cs = chars_of(q);
    let (k, _used) = cut_at(&cs, 50);
    if k < cs.len() {
        let mut r = string_from_range(&cs, 0, k);
        r.append("...");
        assert(cs@.subrange(0, k as int) =~= cs@.take(k as int));
        r
    } else {
        String::from_str(q)
    }
}

/// Whether listing a query panics, as cutting its text at byte 50 inside a
/// character does.
pub fn list_cut_panics(q: &str) -> (r: bool)
    ensures
        r == !cut_ok(q@, 50),
{
    let cs = chars_of(q);
    let (k, used) = cut_at(&cs, 50);
    k < cs.len() && used != 50
}

/// The list of saved queries: each name with the start of its query.
pub fn list_table(entries: &Vec<QueryEntry>) -> (t: crate::report::Table)
    requires
        forall|i: int| 0 <= i < entries@.len() ==> cut_ok((#[trigger] entries@[i]).query_string@, 50),
    ensures
        views(t.header@) == list_header(),
        crate::report::cells_view(t.rows@) == entries@.map_values(
            |e: QueryEntry| seq![e.name@, listed_query(e.query_string@)],
        ),
{
    let mut header: Vec<String> = Vec::new();
    header.push(String::from_str("Name"));
    header.push(String::from_str("Query (first 50 chars)"));
    assert(views(header@) =~= list_header());
    let mut rows: Vec<Vec<String>> = Vec::new();
    let mut i: usize = 0;
    while i < entries.len()
        invariant
            i <= entries.len(),
            forall|m: int| 0 <= m < entries@.len() ==> cut_ok((#[trigger] entries@[m]).query_string@, 50),
            crate::report::cells_view(rows@) == entries@.take(i as int).map_values(
                |e: QueryEntry| seq![e.name@, listed_query(e.query_string@)],
            ),
        decreases entries.len() - i,
    {
        let e = &entries[i];
        assert(cut_ok(e.query_string@, 50));
        let mut cells: Vec<String> = Vec::new();
        cells.push(e.name.clone());
        cells.push(list_query_text(e.query_string.as_str()));
        let ghost before = rows@;
        rows.push(cells);
        assert(views(cells@) =~= seq![e.name@, listed_query(e.query_string@)]);
        assert(crate::report::cells_view(rows@) =~= crate::report::cells_view(before).push(views(cells@)));
        i = i + 1;
        assert(entries@.take(i as int) =~= entries@.take(i - 1).push(entries@[i - 1]));
    }
    assert(entries@.take(entries.len() as int) =~= entries@);
    crate::report::Table { header, rows }
}

} // verus!

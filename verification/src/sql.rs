//! Compiling a parsed search query to one SQL statement over the index
//! tables (`fragments`, `fragments_fts`, `fragment_tags`,
//! `fragment_links`), with its parameters bound by position.

use vstd::prelude::*;

use crate::date::{
    iso_day, local_today, range_days, range_start_text, resolve_range_on, fits_i32, RelativeDate,
};
use crate::error::ParcError;
use crate::search::{
    CompareOp, DateFilter, Filter, HasCondition, SDate, SFilter, STerm, SearchQuery, SortOrder,
    TextTerm, filters_view, terms_view,
};
use crate::text::{
    chars_of, concat3, decimal, join_strings, join_with, push_chars, push_decimal, push_str,
    string_of, texts, to_upper, upper,
};

verus! {

/// A statement and its parameters; `?n` in the text is `params[n - 1]`.
#[derive(Debug)]
pub struct CompiledQuery {
    pub sql: String,
    pub params: Vec<String>,
}

// ── Priorities ───────────────────────────────────────────────────────

/// Priorities from lowest to highest.
pub open spec fn priority_order() -> Seq<Seq<char>> {
    seq!["none"@, "low"@, "medium"@, "high"@, "critical"@]
}

/// Position of a priority in `priority_order`.
pub open spec fn priority_rank_spec(p: Seq<char>) -> Option<int> {
    if p == "none"@ {
        Some(0)
    } else if p == "low"@ {
        Some(1)
    } else if p == "medium"@ {
        Some(2)
    } else if p == "high"@ {
        Some(3)
    } else if p == "critical"@ {
        Some(4)
    } else {
        None
    }
}

/// The priorities a comparison selects; `None` for an unknown priority.
pub open spec fn priorities_spec(op: CompareOp, value: Seq<char>) -> Option<Seq<Seq<char>>> {
    match priority_rank_spec(value) {
        None => None,
        Some(r) => Some(
            match op {
                CompareOp::Eq => seq![value],
                CompareOp::Gt => priority_order().subrange(r + 1, 5),
                CompareOp::Gte => priority_order().subrange(r, 5),
                CompareOp::Lt => priority_order().subrange(0, r),
                CompareOp::Lte => priority_order().subrange(0, r + 1),
            },
        ),
    }
}

proof fn reveal_priorities()
    ensures
        "none"@ =~= seq!['n', 'o', 'n', 'e'],
        "low"@ =~= seq!['l', 'o', 'w'],
        "medium"@ =~= seq!['m', 'e', 'd', 'i', 'u', 'm'],
        "high"@ =~= seq!['h', 'i', 'g', 'h'],
        "critical"@ =~= seq!['c', 'r', 'i', 't', 'i', 'c', 'a', 'l'],
{
    reveal_strlit("none");
    reveal_strlit("low");
    reveal_strlit("medium");
    reveal_strlit("high");
    reveal_strlit("critical");
}

/// The position of a priority from lowest (`none`) to highest (`critical`).
pub fn priority_rank(p: &str) -> (r: Option<usize>)
    ensures
        match priority_rank_spec(p@) {
            None => r.is_none(),
            Some(k) => r == Some(k as usize),
        },
{
    proof {
        reveal_priorities();
    }
    let v = chars_of(p);
    if crate::text::eq_str(&v, "none") {
        Some(0)
    } else if crate::text::eq_str(&v, "low") {
        Some(1)
    } else if crate::text::eq_str(&v, "medium") {
        Some(2)
    } else if crate::text::eq_str(&v, "high") {
        Some(3)
    } else if crate::text::eq_str(&v, "critical") {
        Some(4)
    } else {
        None
    }
}

fn priority_name(k: usize) -> (r: String)
    requires
        k < 5,
    ensures
        r@ == priority_order()[k as int],
{
    let v = if k == 0 {
        chars_of("none")
    } else if k == 1 {
        chars_of("low")
    } else if k == 2 {
        chars_of("medium")
    } else if k == 3 {
        chars_of("high")
    } else {
        chars_of("critical")
    };
    string_of(&v)
}

/// The priorities `lo..hi` of `priority_order`.
fn priority_slice(lo: usize, hi: usize) -> (r: Vec<String>)
    requires
        lo <= hi <= 5,
    ensures
        texts(r@) == priority_order().subrange(lo as int, hi as int),
{
    let mut out: Vec<String> = Vec::new();
    let mut k = lo;
    while k < hi
        invariant
            lo <= k <= hi <= 5,
            texts(out@) =~= priority_order().subrange(lo as int, k as int),
        decreases hi - k,
    {
        let name = priority_name(k);
        let ghost before = out@;
        out.push(name);
        assert(texts(out@) =~= texts(before).push(name@));
        k = k + 1;
    }
    out
}

/// The priorities a comparison such as `priority:>=medium` selects, in
/// rising order; `None` when the value is not a known priority.
pub fn priorities_for_op(op: CompareOp, value: &str) -> (r: Option<Vec<String>>)
    ensures
        match priorities_spec(op, value@) {
            None => r.is_none(),
            Some(ps) => r matches Some(v) && texts(v@) == ps,
        },
{
    let rank = match priority_rank(value) {
        Some(k) => k,
        None => return None,
    };
    let selected = match op {
        CompareOp::Eq => {
            let v = chars_of(value);
            let mut out: Vec<String> = Vec::new();
            out.push(string_of(&v));
            assert(texts(out@) =~= seq![value@]);
            out
        },
        CompareOp::Gt => priority_slice(rank + 1, 5),
        CompareOp::Gte => priority_slice(rank, 5),
        CompareOp::Lt => priority_slice(0, rank),
        CompareOp::Lte => priority_slice(0, rank + 1),
    };
    Some(selected)
}

/// Comparing against a priority splits the scale in two: what lies below
/// it and what lies at or above it are the whole scale, in order; so are
/// what lies at or below it and what lies above it.
pub proof fn priority_ranges_split(value: Seq<char>)
    requires
        priority_rank_spec(value) is Some,
    ensures
        priorities_spec(CompareOp::Lt, value).unwrap() + priorities_spec(CompareOp::Gte, value).unwrap()
            == priority_order(),
        priorities_spec(CompareOp::Lte, value).unwrap() + priorities_spec(CompareOp::Gt, value).unwrap()
            == priority_order(),
        priorities_spec(CompareOp::Eq, value).unwrap() == seq![value],
{
    let r = priority_rank_spec(value).unwrap();
    assert(priority_order().subrange(0, r) + priority_order().subrange(r, 5) =~= priority_order());
    assert(priority_order().subrange(0, r + 1) + priority_order().subrange(r + 1, 5)
        =~= priority_order());
}

// ── The statement, as a value ────────────────────────────────────────

/// What compiling the filters has produced so far.
#[verifier::ext_equal]
pub struct SqlState {
    pub conditions: Seq<Seq<char>>,
    pub params: Seq<Seq<char>>,
    pub joins: Seq<char>,
    pub tags: nat,
    pub group_by: bool,
}

/// The placeholder of parameter `n`.
pub open spec fn placeholder(n: nat) -> Seq<char> {
    "?"@ + decimal(n)
}

/// The index the next parameter gets.
pub open spec fn next_param(st: SqlState) -> nat {
    st.params.len() + 1
}

pub open spec fn eq_op(negated: bool) -> Seq<char> {
    if negated {
        "!="@
    } else {
        "="@
    }
}

pub open spec fn sql_op(op: CompareOp) -> Seq<char> {
    match op {
        CompareOp::Eq => "="@,
        CompareOp::Lt => "<"@,
        CompareOp::Gt => ">"@,
        CompareOp::Lte => "<="@,
        CompareOp::Gte => ">="@,
    }
}

/// `col op ?n`.
pub open spec fn compare_cond(col: Seq<char>, op: Seq<char>, n: nat) -> Seq<char> {
    col + " "@ + op + " "@ + placeholder(n)
}

/// The state with one more condition and the given parameters after it.
pub open spec fn add_cond(st: SqlState, cond: Seq<char>, ps: Seq<Seq<char>>) -> SqlState {
    SqlState {
        conditions: st.conditions.push(cond),
        params: st.params + ps,
        joins: st.joins,
        tags: st.tags,
        group_by: st.group_by,
    }
}

/// `?a, ?a+1, ...` for `n` parameters.
pub open spec fn placeholders(start: nat, n: nat) -> Seq<char> {
    join_with(Seq::new(n, |k: int| placeholder((start + k) as nat)), ", "@)
}

pub open spec fn tag_join(k: nat, n: nat) -> Seq<char> {
    " JOIN fragment_tags ft"@ + decimal(k) + " ON ft"@ + decimal(k) + ".fragment_id = f.id AND ft"@
        + decimal(k) + ".tag = "@ + placeholder(n)
}

pub open spec fn negated_tag_cond(n: nat) -> Seq<char> {
    "NOT EXISTS (SELECT 1 FROM fragment_tags WHERE fragment_id = f.id AND tag = "@ + placeholder(n)
        + ")"@
}

pub open spec fn linked_cond(n: nat) -> Seq<char> {
    "EXISTS (SELECT 1 FROM fragment_links WHERE (source_id = f.id AND target_id LIKE "@
        + placeholder(n) + ") OR (target_id = f.id AND source_id LIKE "@ + placeholder(n) + "))"@
}

pub open spec fn priority_cond(negated: bool, start: nat, n: nat) -> Seq<char> {
    "f.priority "@ + (if negated {
        "NOT "@
    } else {
        ""@
    }) + "IN ("@ + placeholders(start, n) + ")"@
}

/// The message for a relative date whose range leaves chrono's calendar.
pub open spec fn out_of_calendar_msg() -> Seq<char> {
    "relative date is outside the calendar"@
}

/// The condition a date filter puts on a column, seen from day `t`.
pub open spec fn date_step(st: SqlState, col: Seq<char>, df: SDate, t: int) -> Result<
    SqlState,
    Seq<char>,
> {
    let n = next_param(st);
    match df {
        SDate::Relative(rel) => match range_days(rel, t) {
            None => Err(out_of_calendar_msg()),
            Some((a, b)) => {
                let s = range_start_text(rel, a);
                let e = iso_day(b);
                if s == e {
                    Ok(add_cond(st, compare_cond(col, "="@, n), seq![s]))
                } else {
                    Ok(
                        add_cond(
                            st,
                            compare_cond(col, ">="@, n) + " AND "@ + compare_cond(
                                col,
                                "<="@,
                                n + 1,
                            ),
                            seq![s, e],
                        ),
                    )
                }
            },
        },
        SDate::Absolute { op, date } => Ok(add_cond(st, compare_cond(col, sql_op(op), n), seq![date])),
    }
}

/// What one filter adds, seen from day `t`; `Err` with a message when the
/// filter cannot be compiled.
pub open spec fn filter_step(st: SqlState, f: SFilter, t: int) -> Result<SqlState, Seq<char>> {
    let n = next_param(st);
    match f {
        SFilter::Type { value, negated } => Ok(
            add_cond(st, compare_cond("f.type"@, eq_op(negated), n), seq![value]),
        ),
        SFilter::Status { value, negated } => Ok(
            add_cond(st, compare_cond("f.status"@, eq_op(negated), n), seq![value]),
        ),
        SFilter::CreatedBy { value, negated } => Ok(
            add_cond(st, compare_cond("f.created_by"@, eq_op(negated), n), seq![value]),
        ),
        SFilter::Priority { op, value, negated } => match priorities_spec(op, value) {
            None => Err("unknown priority '"@ + value + "'"@),
            Some(ps) => if ps.len() == 0 {
                Ok(add_cond(st, "1=0"@, Seq::empty()))
            } else {
                Ok(add_cond(st, priority_cond(negated, n, ps.len()), ps))
            },
        },
        SFilter::Tag { value, negated } => if negated {
            Ok(add_cond(st, negated_tag_cond(n), seq![value]))
        } else {
            Ok(
                SqlState {
                    conditions: st.conditions,
                    params: st.params.push(value),
                    joins: st.joins + tag_join(st.tags + 1, n),
                    tags: st.tags + 1,
                    group_by: true,
                },
            )
        },
        SFilter::Due(df) => date_step(st, "f.due"@, df, t),
        SFilter::Created(df) => date_step(st, "substr(f.created_at, 1, 10)"@, df, t),
        SFilter::Updated(df) => date_step(st, "substr(f.updated_at, 1, 10)"@, df, t),
        SFilter::Has(HasCondition::Links) => Ok(
            add_cond(
                st,
                "EXISTS (SELECT 1 FROM fragment_links WHERE source_id = f.id)"@,
                Seq::empty(),
            ),
        ),
        SFilter::Has(HasCondition::Due) => Ok(add_cond(st, "f.due IS NOT NULL"@, Seq::empty())),
        SFilter::Has(HasCondition::Attachments) => Ok(add_cond(st, "f.attachment_count > 0"@, Seq::empty())),
        SFilter::Linked(p) => Ok(add_cond(st, linked_cond(n), seq![upper(p) + "%"@])),
    }
}

/// The filters compiled one after the other, from state `st`.
pub open spec fn filters_step(st: SqlState, fs: Seq<SFilter>, t: int) -> Result<SqlState, Seq<char>>
    decreases fs.len(),
{
    if fs.len() == 0 {
        Ok(st)
    } else {
        match filter_step(st, fs[0], t) {
            Ok(next) => filters_step(next, fs.drop_first(), t),
            Err(m) => Err(m),
        }
    }
}

/// The text of a search term inside an FTS expression.
pub open spec fn term_text(t: STerm) -> Seq<char> {
    match t {
        STerm::Word(w) => w,
        STerm::Phrase(p) => "\""@ + p + "\""@,
    }
}

/// The FTS match expression: words as they are, phrases quoted, with a
/// space between each two.
pub open spec fn fts_expression(terms: Seq<STerm>) -> Seq<char> {
    join_with(terms.map_values(|t: STerm| term_text(t)), " "@)
}

pub open spec fn has_positive_tag(fs: Seq<SFilter>) -> bool {
    exists|i: int| 0 <= i < fs.len() && (#[trigger] fs[i]) matches SFilter::Tag { negated: false, .. }
}

pub open spec fn base_select(terms: Seq<STerm>, fs: Seq<SFilter>) -> Seq<char> {
    if terms.len() == 0 {
        "SELECT f.id, f.type, f.title, f.status, f.updated_at, NULL as snippet FROM fragments f"@
    } else if has_positive_tag(fs) {
        "SELECT f.id, f.type, f.title, f.status, f.updated_at, NULL as snippet FROM fragments f JOIN fragments_fts ON fragments_fts.id = f.id"@
    } else {
        "SELECT f.id, f.type, f.title, f.status, f.updated_at, snippet(fragments_fts, 2, '»', '«', '…', 20) as snippet FROM fragments f JOIN fragments_fts ON fragments_fts.id = f.id"@
    }
}

/// Before the filters: the full-text condition, if there are terms.
pub open spec fn initial_state(terms: Seq<STerm>) -> SqlState {
    if terms.len() == 0 {
        SqlState {
            conditions: Seq::empty(),
            params: Seq::empty(),
            joins: Seq::empty(),
            tags: 0,
            group_by: false,
        }
    } else {
        SqlState {
            conditions: seq!["fragments_fts MATCH ?1"@],
            params: seq![fts_expression(terms)],
            joins: Seq::empty(),
            tags: 0,
            group_by: false,
        }
    }
}

pub open spec fn order_text(s: SortOrder) -> Seq<char> {
    match s {
        SortOrder::UpdatedDesc => "f.updated_at DESC"@,
        SortOrder::UpdatedAsc => "f.updated_at ASC"@,
        SortOrder::CreatedDesc => "f.created_at DESC"@,
        SortOrder::CreatedAsc => "f.created_at ASC"@,
    }
}

/// The statement text once the filters are compiled.
pub open spec fn statement(
    base: Seq<char>,
    st: SqlState,
    sort: SortOrder,
    limit: Option<usize>,
) -> Seq<char> {
    base + st.joins + (if st.conditions.len() > 0 {
        " WHERE "@ + join_with(st.conditions, " AND "@)
    } else {
        ""@
    }) + (if st.group_by {
        " GROUP BY f.id"@
    } else {
        ""@
    }) + " ORDER BY "@ + order_text(sort) + (match limit {
        Some(n) => " LIMIT "@ + decimal(n as nat),
        None => ""@,
    })
}

/// A query compiled on day `t`: the statement and its parameters, or the
/// message of the error.
pub open spec fn compile_spec(
    terms: Seq<STerm>,
    fs: Seq<SFilter>,
    sort: SortOrder,
    limit: Option<usize>,
    t: int,
) -> Result<(Seq<char>, Seq<Seq<char>>), Seq<char>> {
    match filters_step(initial_state(terms), fs, t) {
        Ok(st) => Ok((statement(base_select(terms, fs), st, sort, limit), st.params)),
        Err(m) => Err(m),
    }
}

// ── Building it ──────────────────────────────────────────────────────

struct SqlBuilder {
    conditions: Vec<String>,
    params: Vec<String>,
    joins: Vec<char>,
    tags: usize,
    group_by: bool,
}

impl SqlBuilder {
    spec fn model(&self) -> SqlState {
        SqlState {
            conditions: texts(self.conditions@),
            params: texts(self.params@),
            joins: self.joins@,
            tags: self.tags as nat,
            group_by: self.group_by,
        }
    }

    /// Add a condition and then its parameters.
    fn add(&mut self, cond: String, ps: Vec<String>)
        ensures
            final(self).model() =~= add_cond(old(self).model(), cond@, texts(ps@)),
            final(self).params@.len() == old(self).params@.len() + ps@.len(),
            final(self).tags == old(self).tags,
    {
        let ghost c0 = self.conditions@;
        let ghost p0 = self.params@;
        self.conditions.push(cond);
        assert(texts(self.conditions@) =~= texts(c0).push(cond@));
        let mut k: usize = 0;
        while k < ps.len()
            invariant
                k <= ps.len(),
                self.conditions@ == c0.push(cond),
                texts(self.params@) =~= texts(p0) + texts(ps@.subrange(0, k as int)),
                self.params@.len() == p0.len() + k,
                self.joins == old(self).joins,
                self.tags == old(self).tags,
                self.group_by == old(self).group_by,
            decreases ps.len() - k,
        {
            let ghost before = self.params@;
            self.params.push(ps[k].clone());
            assert(texts(self.params@) =~= texts(before).push(ps@[k as int]@));
            assert(texts(ps@.subrange(0, k + 1)) =~= texts(ps@.subrange(0, k as int)).push(
                ps@[k as int]@,
            ));
            k = k + 1;
        }
        assert(ps@.subrange(0, ps@.len() as int) =~= ps@);
    }
}

fn one(s: String) -> (r: Vec<String>)
    ensures
        texts(r@) == seq![s@],
{
    let mut v: Vec<String> = Vec::new();
    v.push(s);
    assert(texts(v@) =~= seq![s@]);
    v
}

fn two(a: String, b: String) -> (r: Vec<String>)
    ensures
        texts(r@) == seq![a@, b@],
{
    let mut v: Vec<String> = Vec::new();
    v.push(a);
    v.push(b);
    assert(texts(v@) =~= seq![a@, b@]);
    v
}

/// `col op ?n`.
fn compare_text(col: &str, op: &str, n: usize) -> (r: Vec<char>)
    ensures
        r@ == compare_cond(col@, op@, n as nat),
{
    let mut out: Vec<char> = Vec::new();
    push_str(&mut out, col);
    push_str(&mut out, " ");
    push_str(&mut out, op);
    push_str(&mut out, " ?");
    push_decimal(&mut out, n);
    proof {
        reveal_strlit("?");
        reveal_strlit(" ?");
        reveal_strlit(" ");
        assert(out@ =~= col@ + " "@ + op@ + " "@ + ("?"@ + decimal(n as nat)));
    }
    out
}

/// `?start, ?start+1, ...` for `n` parameters.
fn placeholders_text(start: usize, n: usize) -> (r: Vec<char>)
    requires
        start + n <= usize::MAX,
    ensures
        r@ == placeholders(start as nat, n as nat),
{
    let ghost f = |k: int| placeholder((start + k) as nat);
    let mut out: Vec<char> = Vec::new();
    let mut k: usize = 0;
    while k < n
        invariant
            k <= n,
            start + n <= usize::MAX,
            f == (|k: int| placeholder((start + k) as nat)),
            out@ == join_with(Seq::new(k as nat, f), ", "@),
        decreases n - k,
    {
        assert(Seq::new((k + 1) as nat, f).drop_last() =~= Seq::new(k as nat, f));
        if k > 0 {
            push_str(&mut out, ", ");
        }
        let ghost before = out@;
        push_str(&mut out, "?");
        push_decimal(&mut out, start + k);
        proof {
            reveal_strlit("?");
            assert(out@ =~= before + ("?"@ + decimal((start + k) as nat)));
        }
        k = k + 1;
    }
    assert(Seq::new(n as nat, f) =~= Seq::new(n as nat, |k: int| placeholder((start + k) as nat)));
    out
}

/// The condition a date filter puts on `col`.
fn apply_date_condition(b: &mut SqlBuilder, col: &str, df: &DateFilter, today: i32) -> (r: Result<
    (),
    ParcError,
>)
    requires
        old(b).params@.len() + 3 <= usize::MAX,
    ensures
        match date_step(old(b).model(), col@, df@, today as int) {
            Ok(st) => r is Ok && final(b).model() == st,
            Err(m) => r matches Err(ParcError::ParseError(x)) && x@ == m,
        },
        final(b).params@.len() <= old(b).params@.len() + 2,
        final(b).tags == old(b).tags,
{
    let n = b.params.len() + 1;
    match df {
        DateFilter::Relative(rel) => {
            let (start, end) = match resolve_range_on(*rel, today) {
                Some(se) => se,
                None => {
                    return Err(
                        ParcError::ParseError(
                            string_of(&chars_of("relative date is outside the calendar")),
                        ),
                    );
                },
            };
            let sv = chars_of(start.as_str());
            let ev = chars_of(end.as_str());
            if crate::text::eq_str_chars(&sv, &ev) {
                let c = compare_text(col, "=", n);
                b.add(string_of(&c), one(start));
            } else {
                let mut c = compare_text(col, ">=", n);
                push_str(&mut c, " AND ");
                let c2 = compare_text(col, "<=", n + 1);
                push_chars(&mut c, &c2);
                b.add(string_of(&c), two(start, end));
            }
            Ok(())
        },
        DateFilter::Absolute { op, date } => {
            let o = match op {
                CompareOp::Eq => "=",
                CompareOp::Lt => "<",
                CompareOp::Gt => ">",
                CompareOp::Lte => "<=",
                CompareOp::Gte => ">=",
            };
            let c = compare_text(col, o, n);
            b.add(string_of(&c), one(date.clone()));
            Ok(())
        },
    }
}

/// `col = ?n` (or `!=` when negated) with the value as its parameter.
fn apply_compare(b: &mut SqlBuilder, col: &str, value: &String, negated: bool)
    requires
        old(b).params@.len() + 2 <= usize::MAX,
    ensures
        final(b).model() == add_cond(
            old(b).model(),
            compare_cond(col@, eq_op(negated), next_param(old(b).model())),
            seq![value@],
        ),
        final(b).params@.len() == old(b).params@.len() + 1,
        final(b).tags == old(b).tags,
{
    proof {
        reveal_strlit("!=");
        reveal_strlit("=");
    }
    let n = b.params.len() + 1;
    let c = compare_text(col, if negated { "!=" } else { "=" }, n);
    b.add(string_of(&c), one(value.clone()));
}

/// `f.priority [NOT ]IN (?n, ...)` over the priorities the comparison selects.
fn apply_priority(b: &mut SqlBuilder, op: CompareOp, value: &String, negated: bool) -> (r: Result<
    (),
    ParcError,
>)
    requires
        old(b).params@.len() + 7 <= usize::MAX,
    ensures
        match filter_step(
            old(b).model(),
            SFilter::Priority { op, value: value@, negated },
            0,
        ) {
            Ok(st) => r is Ok && final(b).model() == st,
            Err(m) => r matches Err(ParcError::ParseError(x)) && x@ == m,
        },
        final(b).params@.len() <= old(b).params@.len() + 5,
        final(b).tags == old(b).tags,
{
    let n = b.params.len() + 1;
    let ps = match priorities_for_op(op, value.as_str()) {
        Some(ps) => ps,
        None => {
            let v = chars_of(value.as_str());
            return Err(ParcError::ParseError(concat3("unknown priority '", &v, "'")));
        },
    };
    proof {
        reveal_priorities();
        let r = priority_rank_spec(value@).unwrap();
        assert(0 <= r < 5);
    }
    assert(ps@.len() <= 5);
    if ps.len() == 0 {
        assert(texts(ps@) =~= Seq::<Seq<char>>::empty());
        b.add(string_of(&chars_of("1=0")), ps);
    } else {
        let mut c: Vec<char> = Vec::new();
        push_str(&mut c, "f.priority ");
        if negated {
            push_str(&mut c, "NOT ");
        } else {
            push_str(&mut c, "");
        }
        push_str(&mut c, "IN (");
        let ph = placeholders_text(n, ps.len());
        push_chars(&mut c, &ph);
        push_str(&mut c, ")");
        assert(c@ =~= priority_cond(negated, n as nat, ps@.len()));
        b.add(string_of(&c), ps);
    }
    Ok(())
}

/// A tag filter: a join for a wanted tag, a `NOT EXISTS` for an unwanted one.
fn apply_tag(b: &mut SqlBuilder, value: &String, negated: bool)
    requires
        old(b).params@.len() + 2 <= usize::MAX,
        old(b).tags < usize::MAX,
    ensures
        filter_step(old(b).model(), SFilter::Tag { value: value@, negated }, 0) == Ok::<
            SqlState,
            Seq<char>,
        >(final(b).model()),
        final(b).params@.len() == old(b).params@.len() + 1,
        final(b).tags <= old(b).tags + 1,
{
    let n = b.params.len() + 1;
    if negated {
        let mut c: Vec<char> = Vec::new();
        push_str(&mut c, "NOT EXISTS (SELECT 1 FROM fragment_tags WHERE fragment_id = f.id AND tag = ?");
        push_decimal(&mut c, n);
        push_str(&mut c, ")");
        proof {
            reveal_strlit("?");
            reveal_strlit("NOT EXISTS (SELECT 1 FROM fragment_tags WHERE fragment_id = f.id AND tag = ?");
            reveal_strlit("NOT EXISTS (SELECT 1 FROM fragment_tags WHERE fragment_id = f.id AND tag = ");
            assert(c@ =~= negated_tag_cond(n as nat));
        }
        b.add(string_of(&c), one(value.clone()));
    } else {
        let k = b.tags + 1;
        let ghost j0 = b.joins@;
        push_str(&mut b.joins, " JOIN fragment_tags ft");
        push_decimal(&mut b.joins, k);
        push_str(&mut b.joins, " ON ft");
        push_decimal(&mut b.joins, k);
        push_str(&mut b.joins, ".fragment_id = f.id AND ft");
        push_decimal(&mut b.joins, k);
        push_str(&mut b.joins, ".tag = ?");
        push_decimal(&mut b.joins, n);
        proof {
            reveal_strlit("?");
            reveal_strlit(".tag = ?");
            reveal_strlit(".tag = ");
            assert(b.joins@ =~= j0 + tag_join(k as nat, n as nat));
        }
        let ghost p0 = b.params@;
        b.params.push(value.clone());
        assert(texts(b.params@) =~= texts(p0).push(value@));
        b.tags = k;
        b.group_by = true;
    }
}

/// `EXISTS` a link either way to an id starting with the prefix.
fn apply_linked(b: &mut SqlBuilder, p: &String)
    requires
        old(b).params@.len() + 2 <= usize::MAX,
    ensures
        final(b).model() == add_cond(
            old(b).model(),
            linked_cond(next_param(old(b).model())),
            seq![upper(p@) + "%"@],
        ),
        final(b).params@.len() == old(b).params@.len() + 1,
        final(b).tags == old(b).tags,
{
    let n = b.params.len() + 1;
    let mut c: Vec<char> = Vec::new();
    push_str(
        &mut c,
        "EXISTS (SELECT 1 FROM fragment_links WHERE (source_id = f.id AND target_id LIKE ?",
    );
    push_decimal(&mut c, n);
    push_str(&mut c, ") OR (target_id = f.id AND source_id LIKE ?");
    push_decimal(&mut c, n);
    push_str(&mut c, "))");
    proof {
        reveal_strlit("?");
        reveal_strlit(
            "EXISTS (SELECT 1 FROM fragment_links WHERE (source_id = f.id AND target_id LIKE ?",
        );
        reveal_strlit(
            "EXISTS (SELECT 1 FROM fragment_links WHERE (source_id = f.id AND target_id LIKE ",
        );
        reveal_strlit(") OR (target_id = f.id AND source_id LIKE ?");
        reveal_strlit(") OR (target_id = f.id AND source_id LIKE ");
        assert(c@ =~= linked_cond(n as nat));
    }
    let up = to_upper(p.as_str());
    let mut pv = chars_of(up.as_str());
    push_str(&mut pv, "%");
    b.add(string_of(&c), one(string_of(&pv)));
}

/// A condition with no parameter.
fn apply_fixed(b: &mut SqlBuilder, cond: &str)
    ensures
        final(b).model() == add_cond(old(b).model(), cond@, Seq::empty()),
        final(b).params@.len() == old(b).params@.len(),
        final(b).tags == old(b).tags,
{
    let c = chars_of(cond);
    let none: Vec<String> = Vec::new();
    assert(texts(none@) =~= Seq::<Seq<char>>::empty());
    b.add(string_of(&c), none);
}

/// What one filter adds to the statement.
fn apply_filter(b: &mut SqlBuilder, f: &Filter, today: i32) -> (r: Result<(), ParcError>)
    requires
        old(b).params@.len() + 7 <= usize::MAX,
        old(b).tags < usize::MAX,
    ensures
        match filter_step(old(b).model(), f@, today as int) {
            Ok(st) => r is Ok && final(b).model() == st,
            Err(m) => r matches Err(ParcError::ParseError(x)) && x@ == m,
        },
        final(b).params@.len() <= old(b).params@.len() + 5,
        final(b).tags <= old(b).tags + 1,
{
    match f {
        Filter::Type { value, negated } => {
            apply_compare(b, "f.type", value, *negated);
            Ok(())
        },
        Filter::Status { value, negated } => {
            apply_compare(b, "f.status", value, *negated);
            Ok(())
        },
        Filter::CreatedBy { value, negated } => {
            apply_compare(b, "f.created_by", value, *negated);
            Ok(())
        },
        Filter::Priority { op, value, negated } => apply_priority(b, *op, value, *negated),
        Filter::Tag { value, negated } => {
            apply_tag(b, value, *negated);
            Ok(())
        },
        Filter::Due(df) => apply_date_condition(b, "f.due", df, today),
        Filter::Created(df) => apply_date_condition(b, "substr(f.created_at, 1, 10)", df, today),
        Filter::Updated(df) => apply_date_condition(b, "substr(f.updated_at, 1, 10)", df, today),
        Filter::Has(HasCondition::Links) => {
            apply_fixed(b, "EXISTS (SELECT 1 FROM fragment_links WHERE source_id = f.id)");
            Ok(())
        },
        Filter::Has(HasCondition::Due) => {
            apply_fixed(b, "f.due IS NOT NULL");
            Ok(())
        },
        Filter::Has(HasCondition::Attachments) => {
            apply_fixed(b, "f.attachment_count > 0");
            Ok(())
        },
        Filter::Linked(p) => {
            apply_linked(b, p);
            Ok(())
        },
    }
}

/// The FTS match expression of the terms: words as they are, phrases in
/// double quotes, joined by spaces.
pub fn build_fts_expression(terms: &[TextTerm]) -> (r: String)
    ensures
        r@ == fts_expression(terms_view(terms@)),
{
    let mut parts: Vec<String> = Vec::new();
    let mut i: usize = 0;
    while i < terms.len()
        invariant
            i <= terms.len(),
            texts(parts@) =~= terms_view(terms@.subrange(0, i as int)).map_values(
                |t: STerm| term_text(t),
            ),
        decreases terms.len() - i,
    {
        let s = match &terms[i] {
            TextTerm::Word(w) => w.clone(),
            TextTerm::Phrase(p) => {
                let pv = chars_of(p.as_str());
                concat3("\"", &pv, "\"")
            },
        };
        let ghost before = parts@;
        parts.push(s);
        assert(texts(parts@) =~= texts(before).push(s@));
        i = i + 1;
    }
    assert(terms@.subrange(0, terms@.len() as int) =~= terms@);
    join_strings(&parts, " ")
}

fn has_positive_tag_exec(fs: &[Filter]) -> (r: bool)
    ensures
        r == has_positive_tag(filters_view(fs@)),
{
    let ghost m = filters_view(fs@);
    let mut i: usize = 0;
    while i < fs.len()
        invariant
            i <= fs.len(),
            m == filters_view(fs@),
            forall|j: int|
                0 <= j < i ==> !((#[trigger] m[j]) matches SFilter::Tag { negated: false, .. }),
        decreases fs.len() - i,
    {
        if let Filter::Tag { negated: false, .. } = &fs[i] {
            assert(m[i as int] matches SFilter::Tag { negated: false, .. });
            return true;
        }
        i = i + 1;
    }
    false
}

/// Compile a query to SQL, resolving relative dates from day number
/// `today`. Fails on an unknown priority and on a relative date whose
/// range leaves the calendar.
pub fn compile_query_on(query: &SearchQuery, today: i32) -> (r: Result<CompiledQuery, ParcError>)
    requires
        5 * query.filters@.len() + 10 <= usize::MAX,
    ensures
        match compile_spec(
            query.model().terms,
            query.model().filters,
            query.sort,
            query.limit,
            today as int,
        ) {
            Ok((sql, params)) => r matches Ok(c) && c.sql@ == sql && texts(c.params@) == params,
            Err(m) => r matches Err(ParcError::ParseError(x)) && x@ == m,
        },
{
    let ghost terms = query.model().terms;
    let ghost fs = query.model().filters;
    let mut b = SqlBuilder {
        conditions: Vec::new(),
        params: Vec::new(),
        joins: Vec::new(),
        tags: 0,
        group_by: false,
    };
    assert(texts(b.conditions@) =~= Seq::<Seq<char>>::empty());
    assert(texts(b.params@) =~= Seq::<Seq<char>>::empty());
    if query.text_terms.len() > 0 {
        let e = build_fts_expression(query.text_terms.as_slice());
        b.conditions.push(string_of(&chars_of("fragments_fts MATCH ?1")));
        b.params.push(e);
        assert(texts(b.conditions@) =~= seq!["fragments_fts MATCH ?1"@]);
        assert(texts(b.params@) =~= seq![fts_expression(terms)]);
    }
    assert(b.model() == initial_state(terms));
    let ghost st0 = b.model();
    assert(fs.subrange(0, fs.len() as int) =~= fs);
    let mut i: usize = 0;
    while i < query.filters.len()
        invariant
            i <= query.filters.len(),
            fs == query.model().filters,
            terms == query.model().terms,
            st0 == initial_state(terms),
            fs.len() == query.filters@.len(),
            5 * query.filters@.len() + 10 <= usize::MAX,
            b.params@.len() <= 5 * i + 1,
            b.tags <= i,
            filters_step(b.model(), fs.subrange(i as int, fs.len() as int), today as int)
                == filters_step(st0, fs, today as int),
        decreases query.filters.len() - i,
    {
        let ghost cur = b.model();
        assert(fs.subrange(i as int, fs.len() as int).drop_first() =~= fs.subrange(
            i + 1,
            fs.len() as int,
        ));
        assert(fs.subrange(i as int, fs.len() as int)[0] == query.filters@[i as int]@);
        let ghost sub = fs.subrange(i as int, fs.len() as int);
        match apply_filter(&mut b, &query.filters[i], today) {
            Ok(()) => {
                assert(filters_step(cur, sub, today as int) == filters_step(
                    b.model(),
                    sub.drop_first(),
                    today as int,
                ));
            },
            Err(e) => {
                assert(filter_step(cur, sub[0], today as int) is Err);
                assert(filters_step(cur, sub, today as int) == Err::<SqlState, Seq<char>>(
                    filter_step(cur, sub[0], today as int)->Err_0,
                ));
                return Err(e);
            },
        }
        i = i + 1;
    }
    assert(fs.subrange(0, fs.len() as int) =~= fs);
    assert(fs.subrange(i as int, fs.len() as int) =~= Seq::<SFilter>::empty());
    let ghost st = b.model();
    // The statement.
    let has_tags = has_positive_tag_exec(query.filters.as_slice());
    let mut sql: Vec<char> = if query.text_terms.len() == 0 {
        chars_of("SELECT f.id, f.type, f.title, f.status, f.updated_at, NULL as snippet FROM fragments f")
    } else if has_tags {
        chars_of("SELECT f.id, f.type, f.title, f.status, f.updated_at, NULL as snippet FROM fragments f JOIN fragments_fts ON fragments_fts.id = f.id")
    } else {
        chars_of("SELECT f.id, f.type, f.title, f.status, f.updated_at, snippet(fragments_fts, 2, '»', '«', '…', 20) as snippet FROM fragments f JOIN fragments_fts ON fragments_fts.id = f.id")
    };
    let ghost base = sql@;
    assert(base == base_select(terms, fs));
    push_chars(&mut sql, &b.joins);
    let ghost s1 = sql@;
    if b.conditions.len() > 0 {
        push_str(&mut sql, " WHERE ");
        let w = join_strings(b.conditions.as_slice(), " AND ");
        let wv = chars_of(w.as_str());
        push_chars(&mut sql, &wv);
    }
    let ghost s2 = sql@;
    if b.group_by {
        push_str(&mut sql, " GROUP BY f.id");
    }
    let ghost s3 = sql@;
    push_str(&mut sql, " ORDER BY ");
    let order = match query.sort {
        SortOrder::UpdatedDesc => "f.updated_at DESC",
        SortOrder::UpdatedAsc => "f.updated_at ASC",
        SortOrder::CreatedDesc => "f.created_at DESC",
        SortOrder::CreatedAsc => "f.created_at ASC",
    };
    push_str(&mut sql, order);
    let ghost s4 = sql@;
    match query.limit {
        Some(n) => {
            push_str(&mut sql, " LIMIT ");
            push_decimal(&mut sql, n);
        },
        None => {},
    }
    proof {
        reveal_strlit("");
        assert(s1 == base + st.joins);
        assert(s2 =~= s1 + (if st.conditions.len() > 0 {
            " WHERE "@ + join_with(st.conditions, " AND "@)
        } else {
            ""@
        }));
        assert(s3 =~= s2 + (if st.group_by {
            " GROUP BY f.id"@
        } else {
            ""@
        }));
        assert(s4 == s3 + " ORDER BY "@ + order_text(query.sort));
        assert(sql@ =~= statement(base, st, query.sort, query.limit));
    }
    Ok(CompiledQuery { sql: string_of(&sql), params: b.params })
}

/// Compile a query to SQL, resolving relative dates from today's date on
/// the local clock.
pub fn compile_query(query: &SearchQuery) -> (r: Result<CompiledQuery, ParcError>)
    requires
        5 * query.filters@.len() + 10 <= usize::MAX,
    ensures
        exists|t: int|
            fits_i32(t) && match compile_spec(
                query.model().terms,
                query.model().filters,
                query.sort,
                query.limit,
                t,
            ) {
                Ok((sql, params)) => r matches Ok(c) && c.sql@ == sql && texts(c.params@) == params,
                Err(m) => r matches Err(ParcError::ParseError(x)) && x@ == m,
            },
{
    let today = local_today();
    let r = compile_query_on(query, today);
    assert(fits_i32(today as int));
    r
}


// ── Laws ─────────────────────────────────────────────────────────────

/// A query of one filter and no search terms, whose filter adds the
/// condition `c` with the single parameter `v`.
proof fn lemma_single_condition(x: SFilter, c: Seq<char>, v: Seq<char>, t: int)
    requires
        filter_step(initial_state(Seq::empty()), x, t) == Ok::<SqlState, Seq<char>>(
            add_cond(initial_state(Seq::empty()), c, seq![v]),
        ),
    ensures
        compile_spec(Seq::empty(), seq![x], SortOrder::UpdatedDesc, None, t) == Ok::<
            (Seq<char>, Seq<Seq<char>>),
            Seq<char>,
        >(
            (
                "SELECT f.id, f.type, f.title, f.status, f.updated_at, NULL as snippet FROM fragments f WHERE "@
                    + c + " ORDER BY f.updated_at DESC"@,
                seq![v],
            ),
        ),
{
    reveal_strlit("");
    reveal_strlit(" WHERE ");
    reveal_strlit(" ORDER BY ");
    reveal_strlit("f.updated_at DESC");
    reveal_strlit(" ORDER BY f.updated_at DESC");
    reveal_strlit("SELECT f.id, f.type, f.title, f.status, f.updated_at, NULL as snippet FROM fragments f");
    reveal_strlit("SELECT f.id, f.type, f.title, f.status, f.updated_at, NULL as snippet FROM fragments f WHERE ");
    let st0 = initial_state(Seq::<STerm>::empty());
    let st = add_cond(st0, c, seq![v]);
    let fs = seq![x];
    assert(fs[0] == x);
    assert(fs.drop_first() =~= Seq::<SFilter>::empty());
    assert(filters_step(st, fs.drop_first(), t) == Ok::<SqlState, Seq<char>>(st));
    assert(filters_step(st0, fs, t) == Ok::<SqlState, Seq<char>>(st));
    assert(st.conditions =~= seq![c]);
    assert(st.params =~= seq![v]);
    assert(join_with(st.conditions, " AND "@) == c);
    assert(st.joins =~= Seq::<char>::empty());
    assert(!st.group_by);
    let base = base_select(Seq::empty(), fs);
    assert(base == "SELECT f.id, f.type, f.title, f.status, f.updated_at, NULL as snippet FROM fragments f"@);
    assert(statement(base, st, SortOrder::UpdatedDesc, None) == base + st.joins + (" WHERE "@ + c)
        + ""@ + " ORDER BY "@ + "f.updated_at DESC"@ + ""@);
    assert(statement(base, st, SortOrder::UpdatedDesc, None)
        =~= "SELECT f.id, f.type, f.title, f.status, f.updated_at, NULL as snippet FROM fragments f WHERE "@
            + c + " ORDER BY f.updated_at DESC"@);
}

/// `col op ?1`, spelled out.
proof fn lemma_first_compare(col: Seq<char>, negated: bool)
    ensures
        compare_cond(col, eq_op(negated), 1) == col + (if negated {
            " != ?1"@
        } else {
            " = ?1"@
        }),
{
    reveal_strlit(" ");
    reveal_strlit("?");
    reveal_strlit("!=");
    reveal_strlit("=");
    reveal_strlit(" != ?1");
    reveal_strlit(" = ?1");
    assert(decimal(1) =~= seq!['1']);
    assert(compare_cond(col, eq_op(negated), 1) =~= col + (if negated {
        " != ?1"@
    } else {
        " = ?1"@
    }));
}

proof fn lemma_status_filter(v: Seq<char>, t: int)
    ensures
        compile_spec(
            Seq::empty(),
            seq![SFilter::Status { value: v, negated: true }],
            SortOrder::UpdatedDesc,
            None,
            t,
        ) == Ok::<(Seq<char>, Seq<Seq<char>>), Seq<char>>(
            (
                "SELECT f.id, f.type, f.title, f.status, f.updated_at, NULL as snippet FROM fragments f WHERE f.status != ?1 ORDER BY f.updated_at DESC"@,
                seq![v],
            ),
        ),
        compile_spec(
            Seq::empty(),
            seq![SFilter::Status { value: v, negated: false }],
            SortOrder::UpdatedDesc,
            None,
            t,
        ) == Ok::<(Seq<char>, Seq<Seq<char>>), Seq<char>>(
            (
                "SELECT f.id, f.type, f.title, f.status, f.updated_at, NULL as snippet FROM fragments f WHERE f.status = ?1 ORDER BY f.updated_at DESC"@,
                seq![v],
            ),
        ),
{
    let c1 = compare_cond("f.status"@, eq_op(true), 1);
    let c0 = compare_cond("f.status"@, eq_op(false), 1);
    lemma_first_compare("f.status"@, true);
    lemma_first_compare("f.status"@, false);
    lemma_single_condition(SFilter::Status { value: v, negated: true }, c1, v, t);
    lemma_single_condition(SFilter::Status { value: v, negated: false }, c0, v, t);
    reveal_strlit("f.status");
    reveal_strlit(" != ?1");
    reveal_strlit(" = ?1");
    reveal_strlit(" ORDER BY f.updated_at DESC");
    reveal_strlit("SELECT f.id, f.type, f.title, f.status, f.updated_at, NULL as snippet FROM fragments f WHERE ");
    reveal_strlit("SELECT f.id, f.type, f.title, f.status, f.updated_at, NULL as snippet FROM fragments f WHERE f.status != ?1 ORDER BY f.updated_at DESC");
    reveal_strlit("SELECT f.id, f.type, f.title, f.status, f.updated_at, NULL as snippet FROM fragments f WHERE f.status = ?1 ORDER BY f.updated_at DESC");
    let head = "SELECT f.id, f.type, f.title, f.status, f.updated_at, NULL as snippet FROM fragments f WHERE "@;
    let tail = " ORDER BY f.updated_at DESC"@;
    assert(head + ("f.status"@ + " != ?1"@) + tail =~= "SELECT f.id, f.type, f.title, f.status, f.updated_at, NULL as snippet FROM fragments f WHERE f.status != ?1 ORDER BY f.updated_at DESC"@);
    assert(head + ("f.status"@ + " = ?1"@) + tail =~= "SELECT f.id, f.type, f.title, f.status, f.updated_at, NULL as snippet FROM fragments f WHERE f.status = ?1 ORDER BY f.updated_at DESC"@);
}

proof fn lemma_type_filter(v: Seq<char>, t: int)
    ensures
        compile_spec(
            Seq::empty(),
            seq![SFilter::Type { value: v, negated: true }],
            SortOrder::UpdatedDesc,
            None,
            t,
        ) == Ok::<(Seq<char>, Seq<Seq<char>>), Seq<char>>(
            (
                "SELECT f.id, f.type, f.title, f.status, f.updated_at, NULL as snippet FROM fragments f WHERE f.type != ?1 ORDER BY f.updated_at DESC"@,
                seq![v],
            ),
        ),
        compile_spec(
            Seq::empty(),
            seq![SFilter::Type { value: v, negated: false }],
            SortOrder::UpdatedDesc,
            None,
            t,
        ) == Ok::<(Seq<char>, Seq<Seq<char>>), Seq<char>>(
            (
                "SELECT f.id, f.type, f.title, f.status, f.updated_at, NULL as snippet FROM fragments f WHERE f.type = ?1 ORDER BY f.updated_at DESC"@,
                seq![v],
            ),
        ),
{
    let c1 = compare_cond("f.type"@, eq_op(true), 1);
    let c0 = compare_cond("f.type"@, eq_op(false), 1);
    lemma_first_compare("f.type"@, true);
    lemma_first_compare("f.type"@, false);
    lemma_single_condition(SFilter::Type { value: v, negated: true }, c1, v, t);
    lemma_single_condition(SFilter::Type { value: v, negated: false }, c0, v, t);
    reveal_strlit("f.type");
    reveal_strlit(" != ?1");
    reveal_strlit(" = ?1");
    reveal_strlit(" ORDER BY f.updated_at DESC");
    reveal_strlit("SELECT f.id, f.type, f.title, f.status, f.updated_at, NULL as snippet FROM fragments f WHERE ");
    reveal_strlit("SELECT f.id, f.type, f.title, f.status, f.updated_at, NULL as snippet FROM fragments f WHERE f.type != ?1 ORDER BY f.updated_at DESC");
    reveal_strlit("SELECT f.id, f.type, f.title, f.status, f.updated_at, NULL as snippet FROM fragments f WHERE f.type = ?1 ORDER BY f.updated_at DESC");
    let head = "SELECT f.id, f.type, f.title, f.status, f.updated_at, NULL as snippet FROM fragments f WHERE "@;
    let tail = " ORDER BY f.updated_at DESC"@;
    assert(head + ("f.type"@ + " != ?1"@) + tail =~= "SELECT f.id, f.type, f.title, f.status, f.updated_at, NULL as snippet FROM fragments f WHERE f.type != ?1 ORDER BY f.updated_at DESC"@);
    assert(head + ("f.type"@ + " = ?1"@) + tail =~= "SELECT f.id, f.type, f.title, f.status, f.updated_at, NULL as snippet FROM fragments f WHERE f.type = ?1 ORDER BY f.updated_at DESC"@);
}

proof fn lemma_author_filter(v: Seq<char>, t: int)
    ensures
        compile_spec(
            Seq::empty(),
            seq![SFilter::CreatedBy { value: v, negated: true }],
            SortOrder::UpdatedDesc,
            None,
            t,
        ) == Ok::<(Seq<char>, Seq<Seq<char>>), Seq<char>>(
            (
                "SELECT f.id, f.type, f.title, f.status, f.updated_at, NULL as snippet FROM fragments f WHERE f.created_by != ?1 ORDER BY f.updated_at DESC"@,
                seq![v],
            ),
        ),
        compile_spec(
            Seq::empty(),
            seq![SFilter::CreatedBy { value: v, negated: false }],
            SortOrder::UpdatedDesc,
            None,
            t,
        ) == Ok::<(Seq<char>, Seq<Seq<char>>), Seq<char>>(
            (
                "SELECT f.id, f.type, f.title, f.status, f.updated_at, NULL as snippet FROM fragments f WHERE f.created_by = ?1 ORDER BY f.updated_at DESC"@,
                seq![v],
            ),
        ),
{
    let c1 = compare_cond("f.created_by"@, eq_op(true), 1);
    let c0 = compare_cond("f.created_by"@, eq_op(false), 1);
    lemma_first_compare("f.created_by"@, true);
    lemma_first_compare("f.created_by"@, false);
    lemma_single_condition(SFilter::CreatedBy { value: v, negated: true }, c1, v, t);
    lemma_single_condition(SFilter::CreatedBy { value: v, negated: false }, c0, v, t);
    reveal_strlit("f.created_by");
    reveal_strlit(" != ?1");
    reveal_strlit(" = ?1");
    reveal_strlit(" ORDER BY f.updated_at DESC");
    reveal_strlit("SELECT f.id, f.type, f.title, f.status, f.updated_at, NULL as snippet FROM fragments f WHERE ");
    reveal_strlit("SELECT f.id, f.type, f.title, f.status, f.updated_at, NULL as snippet FROM fragments f WHERE f.created_by != ?1 ORDER BY f.updated_at DESC");
    reveal_strlit("SELECT f.id, f.type, f.title, f.status, f.updated_at, NULL as snippet FROM fragments f WHERE f.created_by = ?1 ORDER BY f.updated_at DESC");
    let head = "SELECT f.id, f.type, f.title, f.status, f.updated_at, NULL as snippet FROM fragments f WHERE "@;
    let tail = " ORDER BY f.updated_at DESC"@;
    assert(head + ("f.created_by"@ + " != ?1"@) + tail =~= "SELECT f.id, f.type, f.title, f.status, f.updated_at, NULL as snippet FROM fragments f WHERE f.created_by != ?1 ORDER BY f.updated_at DESC"@);
    assert(head + ("f.created_by"@ + " = ?1"@) + tail =~= "SELECT f.id, f.type, f.title, f.status, f.updated_at, NULL as snippet FROM fragments f WHERE f.created_by = ?1 ORDER BY f.updated_at DESC"@);
}

/// A negated `status:`, `type:` or `by:` filter excludes its value and a
/// plain one selects it: compiled alone, with no search terms, the
/// statement keeps exactly the fragments whose column differs from (or
/// equals) the value, which is its one parameter.
pub proof fn negated_filters_exclude(v: Seq<char>, t: int)
    ensures
        compile_spec(
            Seq::empty(),
            seq![SFilter::Status { value: v, negated: true }],
            SortOrder::UpdatedDesc,
            None,
            t,
        ) == Ok::<(Seq<char>, Seq<Seq<char>>), Seq<char>>(
            (
                "SELECT f.id, f.type, f.title, f.status, f.updated_at, NULL as snippet FROM fragments f WHERE f.status != ?1 ORDER BY f.updated_at DESC"@,
                seq![v],
            ),
        ),
        compile_spec(
            Seq::empty(),
            seq![SFilter::Status { value: v, negated: false }],
            SortOrder::UpdatedDesc,
            None,
            t,
        ) == Ok::<(Seq<char>, Seq<Seq<char>>), Seq<char>>(
            (
                "SELECT f.id, f.type, f.title, f.status, f.updated_at, NULL as snippet FROM fragments f WHERE f.status = ?1 ORDER BY f.updated_at DESC"@,
                seq![v],
            ),
        ),
        compile_spec(
            Seq::empty(),
            seq![SFilter::Type { value: v, negated: true }],
            SortOrder::UpdatedDesc,
            None,
            t,
        ) == Ok::<(Seq<char>, Seq<Seq<char>>), Seq<char>>(
            (
                "SELECT f.id, f.type, f.title, f.status, f.updated_at, NULL as snippet FROM fragments f WHERE f.type != ?1 ORDER BY f.updated_at DESC"@,
                seq![v],
            ),
        ),
        compile_spec(
            Seq::empty(),
            seq![SFilter::Type { value: v, negated: false }],
            SortOrder::UpdatedDesc,
            None,
            t,
        ) == Ok::<(Seq<char>, Seq<Seq<char>>), Seq<char>>(
            (
                "SELECT f.id, f.type, f.title, f.status, f.updated_at, NULL as snippet FROM fragments f WHERE f.type = ?1 ORDER BY f.updated_at DESC"@,
                seq![v],
            ),
        ),
        compile_spec(
            Seq::empty(),
            seq![SFilter::CreatedBy { value: v, negated: true }],
            SortOrder::UpdatedDesc,
            None,
            t,
        ) == Ok::<(Seq<char>, Seq<Seq<char>>), Seq<char>>(
            (
                "SELECT f.id, f.type, f.title, f.status, f.updated_at, NULL as snippet FROM fragments f WHERE f.created_by != ?1 ORDER BY f.updated_at DESC"@,
                seq![v],
            ),
        ),
        compile_spec(
            Seq::empty(),
            seq![SFilter::CreatedBy { value: v, negated: false }],
            SortOrder::UpdatedDesc,
            None,
            t,
        ) == Ok::<(Seq<char>, Seq<Seq<char>>), Seq<char>>(
            (
                "SELECT f.id, f.type, f.title, f.status, f.updated_at, NULL as snippet FROM fragments f WHERE f.created_by = ?1 ORDER BY f.updated_at DESC"@,
                seq![v],
            ),
        ),
{
    lemma_status_filter(v, t);
    lemma_type_filter(v, t);
    lemma_author_filter(v, t);
}

/// `col op ?1`, spelled out.
proof fn lemma_first_op(col: Seq<char>, o: Seq<char>)
    ensures
        compare_cond(col, o, 1) == col + " "@ + o + " ?1"@,
{
    reveal_strlit(" ");
    reveal_strlit("?");
    reveal_strlit(" ?1");
    assert(decimal(1) =~= seq!['1']);
    assert(compare_cond(col, o, 1) =~= col + " "@ + o + " ?1"@);
}

/// Each date filter compares its own column: `due:` the due date,
/// `created:` the day of creation and `updated:` the day of the last
/// change, with the operator written and the date as the one parameter.
pub proof fn date_filters_use_their_column(op: CompareOp, date: Seq<char>, t: int)
    ensures
        compile_spec(Seq::empty(), seq![SFilter::Due(SDate::Absolute { op, date })], SortOrder::UpdatedDesc, None, t) == Ok::<
            (Seq<char>, Seq<Seq<char>>),
            Seq<char>,
        >(("SELECT f.id, f.type, f.title, f.status, f.updated_at, NULL as snippet FROM fragments f WHERE "@ + ("f.due"@ + " "@ + sql_op(op) + " ?1"@) + " ORDER BY f.updated_at DESC"@, seq![date])),
        compile_spec(Seq::empty(), seq![SFilter::Created(SDate::Absolute { op, date })], SortOrder::UpdatedDesc, None, t) == Ok::<
            (Seq<char>, Seq<Seq<char>>),
            Seq<char>,
        >(("SELECT f.id, f.type, f.title, f.status, f.updated_at, NULL as snippet FROM fragments f WHERE "@ + ("substr(f.created_at, 1, 10)"@ + " "@ + sql_op(op) + " ?1"@) + " ORDER BY f.updated_at DESC"@, seq![date])),
        compile_spec(Seq::empty(), seq![SFilter::Updated(SDate::Absolute { op, date })], SortOrder::UpdatedDesc, None, t) == Ok::<
            (Seq<char>, Seq<Seq<char>>),
            Seq<char>,
        >(("SELECT f.id, f.type, f.title, f.status, f.updated_at, NULL as snippet FROM fragments f WHERE "@ + ("substr(f.updated_at, 1, 10)"@ + " "@ + sql_op(op) + " ?1"@) + " ORDER BY f.updated_at DESC"@, seq![date])),
{
    let st0 = initial_state(Seq::<STerm>::empty());
    assert(next_param(st0) == 1);
    lemma_first_op("f.due"@, sql_op(op));
    lemma_first_op("substr(f.created_at, 1, 10)"@, sql_op(op));
    lemma_first_op("substr(f.updated_at, 1, 10)"@, sql_op(op));
    lemma_single_condition(SFilter::Due(SDate::Absolute { op, date }), compare_cond("f.due"@, sql_op(op), 1), date, t);
    lemma_single_condition(
        SFilter::Created(SDate::Absolute { op, date }),
        compare_cond("substr(f.created_at, 1, 10)"@, sql_op(op), 1),
        date,
        t,
    );
    lemma_single_condition(
        SFilter::Updated(SDate::Absolute { op, date }),
        compare_cond("substr(f.updated_at, 1, 10)"@, sql_op(op), 1),
        date,
        t,
    );
}

/// A negated tag filter keeps the fragments that do not carry the tag:
/// compiled alone it is one `NOT EXISTS` condition on the tag table with
/// the tag as its one parameter, and no join.
pub proof fn negated_tag_excludes(v: Seq<char>, t: int)
    ensures
        compile_spec(Seq::empty(), seq![SFilter::Tag { value: v, negated: true }], SortOrder::UpdatedDesc, None, t) == Ok::<
            (Seq<char>, Seq<Seq<char>>),
            Seq<char>,
        >(("SELECT f.id, f.type, f.title, f.status, f.updated_at, NULL as snippet FROM fragments f WHERE "@ + "NOT EXISTS (SELECT 1 FROM fragment_tags WHERE fragment_id = f.id AND tag = ?1)"@ + " ORDER BY f.updated_at DESC"@, seq![v])),
{
    let st0 = initial_state(Seq::<STerm>::empty());
    assert(next_param(st0) == 1);
    reveal_strlit("?");
    reveal_strlit(")");
    reveal_strlit("NOT EXISTS (SELECT 1 FROM fragment_tags WHERE fragment_id = f.id AND tag = ");
    reveal_strlit("NOT EXISTS (SELECT 1 FROM fragment_tags WHERE fragment_id = f.id AND tag = ?1)");
    assert(decimal(1) =~= seq!['1']);
    assert(negated_tag_cond(1)
        =~= "NOT EXISTS (SELECT 1 FROM fragment_tags WHERE fragment_id = f.id AND tag = ?1)"@);
    lemma_single_condition(SFilter::Tag { value: v, negated: true }, negated_tag_cond(1), v, t);
}

/// Whatever came before, `has:due` adds the condition that the due date
/// is set, `has:links` that the fragment links somewhere and
/// `has:attachments` that it has an attachment, each with no parameter.
pub proof fn has_conditions_compile(st: SqlState, t: int)
    ensures
        filter_step(st, SFilter::Has(HasCondition::Due), t) == Ok::<SqlState, Seq<char>>(
            add_cond(st, "f.due IS NOT NULL"@, Seq::empty()),
        ),
        filter_step(st, SFilter::Has(HasCondition::Links), t) == Ok::<SqlState, Seq<char>>(
            add_cond(st, "EXISTS (SELECT 1 FROM fragment_links WHERE source_id = f.id)"@, Seq::empty()),
        ),
        filter_step(st, SFilter::Has(HasCondition::Attachments), t) == Ok::<SqlState, Seq<char>>(
            add_cond(st, "f.attachment_count > 0"@, Seq::empty()),
        ),
{
}

/// A negated priority filter keeps the fragments whose priority is none
/// of the matching levels (`NOT IN`), a plain one those whose priority is
/// one of them (`IN`); the levels are the parameters, in order, after
/// those already bound.
pub proof fn negated_priority_excludes(st: SqlState, op: CompareOp, value: Seq<char>, t: int)
    requires
        priorities_spec(op, value) matches Some(ps) && ps.len() > 0,
    ensures
        filter_step(st, SFilter::Priority { op, value, negated: true }, t) == Ok::<SqlState, Seq<char>>(
            add_cond(
                st,
                "f.priority NOT IN ("@ + placeholders(next_param(st), priorities_spec(op, value).unwrap().len())
                    + ")"@,
                priorities_spec(op, value).unwrap(),
            ),
        ),
        filter_step(st, SFilter::Priority { op, value, negated: false }, t) == Ok::<SqlState, Seq<char>>(
            add_cond(
                st,
                "f.priority IN ("@ + placeholders(next_param(st), priorities_spec(op, value).unwrap().len())
                    + ")"@,
                priorities_spec(op, value).unwrap(),
            ),
        ),
{
    reveal_strlit("f.priority ");
    reveal_strlit("NOT ");
    reveal_strlit("");
    reveal_strlit("IN (");
    reveal_strlit("f.priority NOT IN (");
    reveal_strlit("f.priority IN (");
    let n = next_param(st);
    let k = priorities_spec(op, value).unwrap().len();
    assert(priority_cond(true, n, k) =~= "f.priority NOT IN ("@ + placeholders(n, k) + ")"@);
    assert(priority_cond(false, n, k) =~= "f.priority IN ("@ + placeholders(n, k) + ")"@);
}

} // verus!

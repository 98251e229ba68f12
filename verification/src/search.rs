//! The search query language: `type:todo status:!done #backend due:this-week API`.

use vstd::prelude::*;

use crate::date::{parse_relative_chars, parse_relative_date_spec, RelativeDate};
use crate::error::ParcError;
use crate::text::{
    chars_of, concat3, eq_str, find_char_at, find_from, has_prefix, lemma_find_from_bounds,
    is_ws, lemma_skip_ws_bounds, lemma_word_end_bounds, lower, lower_chars, rtrim_len, skip_ws,
    skip_ws_at,
    slice_vec, starts_with_at, string_of, trim, trim_chars, word_end, word_end_at,
};

verus! {

// ── AST ──────────────────────────────────────────────────────────────

#[derive(Debug, Clone, PartialEq, Eq)]
pub enum TextTerm {
    Word(String),
    Phrase(String),
}

#[derive(Debug, Clone, Copy, PartialEq, Eq)]
pub enum CompareOp {
    Eq,
    Lt,
    Gt,
    Lte,
    Gte,
}

#[derive(Debug, Clone, PartialEq, Eq)]
pub enum DateFilter {
    Relative(RelativeDate),
    Absolute { op: CompareOp, date: String },
}

#[derive(Debug, Clone, Copy, PartialEq, Eq)]
pub enum HasCondition {
    Attachments,
    Links,
    Due,
}

#[derive(Debug, Clone, PartialEq, Eq)]
pub enum Filter {
    Type { value: String, negated: bool },
    Status { value: String, negated: bool },
    Priority { op: CompareOp, value: String, negated: bool },
    Tag { value: String, negated: bool },
    Due(DateFilter),
    Created(DateFilter),
    Updated(DateFilter),
    CreatedBy { value: String, negated: bool },
    Has(HasCondition),
    Linked(String),
}

#[derive(Debug, Clone, Copy, PartialEq, Eq)]
pub enum SortOrder {
    UpdatedDesc,
    UpdatedAsc,
    CreatedDesc,
    CreatedAsc,
}

#[derive(Debug)]
pub struct SearchQuery {
    pub text_terms: Vec<TextTerm>,
    pub filters: Vec<Filter>,
    pub sort: SortOrder,
    pub limit: Option<usize>,
}

impl SearchQuery {
    /// An empty query: no terms, no filters, newest update first, no limit.
    pub fn new() -> (q: SearchQuery)
        ensures
            q.text_terms@.len() == 0,
            q.filters@.len() == 0,
            q.sort == SortOrder::UpdatedDesc,
            q.limit.is_none(),
    {
        SearchQuery {
            text_terms: Vec::new(),
            filters: Vec::new(),
            sort: SortOrder::UpdatedDesc,
            limit: None,
        }
    }
}

/// One fragment a search finds, as the index holds it.
#[derive(Debug, Clone)]
pub struct SearchResult {
    pub id: String,
    pub fragment_type: String,
    pub title: String,
    pub status: Option<String>,
    pub tags: Vec<String>,
    pub updated_at: String,
    pub snippet: Option<String>,
}

// ── Mathematical model ───────────────────────────────────────────────

pub enum STerm {
    Word(Seq<char>),
    Phrase(Seq<char>),
}

pub enum SDate {
    Relative(RelativeDate),
    Absolute { op: CompareOp, date: Seq<char> },
}

pub enum SFilter {
    Type { value: Seq<char>, negated: bool },
    Status { value: Seq<char>, negated: bool },
    Priority { op: CompareOp, value: Seq<char>, negated: bool },
    Tag { value: Seq<char>, negated: bool },
    Due(SDate),
    Created(SDate),
    Updated(SDate),
    CreatedBy { value: Seq<char>, negated: bool },
    Has(HasCondition),
    Linked(Seq<char>),
}

impl View for TextTerm {
    type V = STerm;

    open spec fn view(&self) -> STerm {
        match self {
            TextTerm::Word(w) => STerm::Word(w@),
            TextTerm::Phrase(p) => STerm::Phrase(p@),
        }
    }
}

impl View for DateFilter {
    type V = SDate;

    open spec fn view(&self) -> SDate {
        match self {
            DateFilter::Relative(r) => SDate::Relative(*r),
            DateFilter::Absolute { op, date } => SDate::Absolute { op: *op, date: date@ },
        }
    }
}

impl View for Filter {
    type V = SFilter;

    open spec fn view(&self) -> SFilter {
        match self {
            Filter::Type { value, negated } => SFilter::Type { value: value@, negated: *negated },
            Filter::Status { value, negated } => SFilter::Status { value: value@, negated: *negated },
            Filter::Priority { op, value, negated } => SFilter::Priority {
                op: *op,
                value: value@,
                negated: *negated,
            },
            Filter::Tag { value, negated } => SFilter::Tag { value: value@, negated: *negated },
            Filter::Due(d) => SFilter::Due(d@),
            Filter::Created(d) => SFilter::Created(d@),
            Filter::Updated(d) => SFilter::Updated(d@),
            Filter::CreatedBy { value, negated } => SFilter::CreatedBy {
                value: value@,
                negated: *negated,
            },
            Filter::Has(h) => SFilter::Has(*h),
            Filter::Linked(p) => SFilter::Linked(p@),
        }
    }
}

pub open spec fn terms_view(v: Seq<TextTerm>) -> Seq<STerm> {
    v.map_values(|t: TextTerm| t@)
}

pub open spec fn filters_view(v: Seq<Filter>) -> Seq<SFilter> {
    v.map_values(|f: Filter| f@)
}

/// The parsed form of a query: its text terms and its filters, in order.
pub struct SQuery {
    pub terms: Seq<STerm>,
    pub filters: Seq<SFilter>,
}

impl SearchQuery {
    pub open spec fn model(&self) -> SQuery {
        SQuery { terms: terms_view(self.text_terms@), filters: filters_view(self.filters@) }
    }
}

/// The name chrono's `NaiveDate::parse_from_str(s, "%Y-%m-%d")` gives to
/// whether `s` is accepted.
pub uninterp spec fn ymd_accepted(s: Seq<char>) -> bool;

/// `chrono::NaiveDate::parse_from_str(s, "%Y-%m-%d").is_ok()`.
#[verifier::external_body]
pub(crate) fn is_ymd_date(s: &str) -> (b: bool)
    ensures
        b == ymd_accepted(s@),
{
    chrono::NaiveDate::parse_from_str(s, "%Y-%m-%d").is_ok()
}

/// Filter fields recognised in `field:value` tokens.
pub open spec fn is_filter_field(f: Seq<char>) -> bool {
    ||| f == "type"@
    ||| f == "status"@
    ||| f == "priority"@
    ||| f == "tag"@
    ||| f == "due"@
    ||| f == "created"@
    ||| f == "updated"@
    ||| f == "by"@
    ||| f == "has"@
    ||| f == "linked"@
}

/// A leading `!` negates a filter value.
pub open spec fn negation_spec(v: Seq<char>) -> (bool, Seq<char>) {
    if v.len() > 0 && v[0] == '!' {
        (true, v.drop_first())
    } else {
        (false, v)
    }
}

/// A leading `>=`, `<=`, `>` or `<` (in that order of preference); `Eq` otherwise.
pub open spec fn op_prefix_spec(v: Seq<char>) -> (CompareOp, Seq<char>) {
    if has_prefix(v, ">="@) {
        (CompareOp::Gte, v.subrange(2, v.len() as int))
    } else if has_prefix(v, "<="@) {
        (CompareOp::Lte, v.subrange(2, v.len() as int))
    } else if v.len() > 0 && v[0] == '>' {
        (CompareOp::Gt, v.drop_first())
    } else if v.len() > 0 && v[0] == '<' {
        (CompareOp::Lt, v.drop_first())
    } else {
        (CompareOp::Eq, v)
    }
}

/// `priority:` values: negation first, then a comparison operator.
pub open spec fn compare_value_spec(v: Seq<char>) -> (CompareOp, bool, Seq<char>) {
    let (neg, rest) = negation_spec(v);
    let (op, val) = op_prefix_spec(rest);
    (op, neg, val)
}

/// `due:`, `created:`, `updated:` values: an optional operator, then a
/// shorthand (whose operator is dropped) or a `YYYY-MM-DD` date.
pub open spec fn date_filter_spec(v: Seq<char>) -> Result<SDate, Seq<char>> {
    let (op, val) = op_prefix_spec(v);
    match parse_relative_date_spec(val) {
        Some(r) => Ok(SDate::Relative(r)),
        None => if ymd_accepted(val) {
            Ok(SDate::Absolute { op, date: val })
        } else {
            Err("invalid date '"@ + val + "'"@)
        },
    }
}

/// The filter a `field:value` token denotes, or the parse error message.
pub open spec fn parse_filter_spec(field: Seq<char>, value: Seq<char>) -> Result<SFilter, Seq<char>> {
    let (neg, val) = negation_spec(value);
    if field == "type"@ {
        Ok(SFilter::Type { value: val, negated: neg })
    } else if field == "status"@ {
        Ok(SFilter::Status { value: val, negated: neg })
    } else if field == "priority"@ {
        let (op, n, v) = compare_value_spec(value);
        Ok(SFilter::Priority { op, value: v, negated: n })
    } else if field == "tag"@ {
        Ok(SFilter::Tag { value: lower(val), negated: neg })
    } else if field == "due"@ {
        match date_filter_spec(value) {
            Ok(d) => Ok(SFilter::Due(d)),
            Err(e) => Err(e),
        }
    } else if field == "created"@ {
        match date_filter_spec(value) {
            Ok(d) => Ok(SFilter::Created(d)),
            Err(e) => Err(e),
        }
    } else if field == "updated"@ {
        match date_filter_spec(value) {
            Ok(d) => Ok(SFilter::Updated(d)),
            Err(e) => Err(e),
        }
    } else if field == "by"@ {
        Ok(SFilter::CreatedBy { value: val, negated: neg })
    } else if field == "has"@ {
        if value == "attachments"@ {
            Ok(SFilter::Has(HasCondition::Attachments))
        } else if value == "links"@ {
            Ok(SFilter::Has(HasCondition::Links))
        } else if value == "due"@ {
            Ok(SFilter::Has(HasCondition::Due))
        } else {
            Err("unknown has: condition '"@ + value + "'"@)
        }
    } else if field == "linked"@ {
        Ok(SFilter::Linked(value))
    } else {
        Err("unknown filter field '"@ + field + "'"@)
    }
}

/// What one plain token (no leading `"` or `#`) denotes: a filter when it
/// is `field:value` with a known field and a non-empty value, a word otherwise.
pub open spec fn token_spec(tok: Seq<char>) -> Result<Result<SFilter, STerm>, Seq<char>> {
    let p = find_from(tok, ':', 0);
    if p < tok.len() && is_filter_field(tok.subrange(0, p)) && p + 1 < tok.len() {
        match parse_filter_spec(tok.subrange(0, p), tok.subrange(p + 1, tok.len() as int)) {
            Ok(f) => Ok(Ok(f)),
            Err(e) => Err(e),
        }
    } else {
        Ok(Err(STerm::Word(tok)))
    }
}

pub open spec fn cons_term(t: STerm, r: Result<SQuery, Seq<char>>) -> Result<SQuery, Seq<char>> {
    match r {
        Ok(q) => Ok(SQuery { terms: seq![t] + q.terms, filters: q.filters }),
        Err(e) => Err(e),
    }
}

pub open spec fn cons_filter(f: SFilter, r: Result<SQuery, Seq<char>>) -> Result<SQuery, Seq<char>> {
    match r {
        Ok(q) => Ok(SQuery { terms: q.terms, filters: seq![f] + q.filters }),
        Err(e) => Err(e),
    }
}

/// Terms and filters already read, followed by what the rest denotes.
pub open spec fn combine(t: Seq<STerm>, f: Seq<SFilter>, r: Result<SQuery, Seq<char>>) -> Result<
    SQuery,
    Seq<char>,
> {
    match r {
        Ok(q) => Ok(SQuery { terms: t + q.terms, filters: f + q.filters }),
        Err(e) => Err(e),
    }
}

proof fn lemma_combine_term(t: Seq<STerm>, f: Seq<SFilter>, x: STerm, r: Result<SQuery, Seq<char>>)
    ensures
        combine(t, f, cons_term(x, r)) == combine(t + seq![x], f, r),
{
    match r {
        Ok(q) => {
            assert(t + (seq![x] + q.terms) =~= (t + seq![x]) + q.terms);
        },
        Err(e) => {},
    }
}

proof fn lemma_combine_filter(
    t: Seq<STerm>,
    f: Seq<SFilter>,
    x: SFilter,
    r: Result<SQuery, Seq<char>>,
)
    ensures
        combine(t, f, cons_filter(x, r)) == combine(t, f + seq![x], r),
{
    match r {
        Ok(q) => {
            assert(f + (seq![x] + q.filters) =~= (f + seq![x]) + q.filters);
        },
        Err(e) => {},
    }
}

/// The query denoted by `s[i..]`.
pub open spec fn parse_rest(s: Seq<char>, i: int) -> Result<SQuery, Seq<char>>
    decreases s.len() - i,
{
    if 0 <= i <= s.len() {
        let j = skip_ws(s, i);
        proof {
            lemma_skip_ws_bounds(s, i);
        }
        if j >= s.len() {
            Ok(SQuery { terms: Seq::empty(), filters: Seq::empty() })
        } else if s[j] == '"' {
            let k = find_from(s, '"', j + 1);
            proof {
                lemma_find_from_bounds(s, '"', j + 1);
            }
            let next = if k < s.len() { k + 1 } else { k };
            let phrase = s.subrange(j + 1, k);
            if phrase.len() > 0 {
                cons_term(STerm::Phrase(phrase), parse_rest(s, next))
            } else {
                parse_rest(s, next)
            }
        } else if s[j] == '#' {
            let k = word_end(s, j + 1);
            proof {
                lemma_word_end_bounds(s, j + 1);
            }
            let w = s.subrange(j + 1, k);
            if w.len() > 0 {
                cons_filter(SFilter::Tag { value: lower(w), negated: false }, parse_rest(s, k))
            } else {
                parse_rest(s, k)
            }
        } else {
            let k = word_end(s, j);
            proof {
                lemma_word_end_bounds(s, j);
                lemma_word_end_bounds(s, j + 1);
            }
            match token_spec(s.subrange(j, k)) {
                Err(e) => Err(e),
                Ok(Ok(f)) => cons_filter(f, parse_rest(s, k)),
                Ok(Err(t)) => cons_term(t, parse_rest(s, k)),
            }
        }
    } else {
        Ok(SQuery { terms: Seq::empty(), filters: Seq::empty() })
    }
}

/// The query a string denotes, or the parse error message.
pub open spec fn parse_query_spec(input: Seq<char>) -> Result<SQuery, Seq<char>> {
    parse_rest(trim(input), 0)
}

// ── Parser ───────────────────────────────────────────────────────────

fn parse_negation(value: &[char]) -> (r: (bool, Vec<char>))
    ensures
        (r.0, r.1@) == negation_spec(value@),
{
    if value.len() > 0 && value[0] == '!' {
        let rest = slice_vec(value, 1, value.len());
        assert(rest@ =~= value@.drop_first());
        (true, rest)
    } else {
        let all = slice_vec(value, 0, value.len());
        assert(all@ =~= value@);
        (false, all)
    }
}

fn parse_op_prefix(value: &[char]) -> (r: (CompareOp, Vec<char>))
    ensures
        (r.0, r.1@) == op_prefix_spec(value@),
{
    proof {
        reveal_strlit(">=");
        reveal_strlit("<=");
        assert(value@.subrange(0, value@.len() as int) =~= value@);
    }
    if starts_with_at(value, 0, ">=") {
        (CompareOp::Gte, slice_vec(value, 2, value.len()))
    } else if starts_with_at(value, 0, "<=") {
        (CompareOp::Lte, slice_vec(value, 2, value.len()))
    } else if value.len() > 0 && value[0] == '>' {
        let r = slice_vec(value, 1, value.len());
        assert(r@ =~= value@.drop_first());
        (CompareOp::Gt, r)
    } else if value.len() > 0 && value[0] == '<' {
        let r = slice_vec(value, 1, value.len());
        assert(r@ =~= value@.drop_first());
        (CompareOp::Lt, r)
    } else {
        let r = slice_vec(value, 0, value.len());
        assert(r@ =~= value@);
        (CompareOp::Eq, r)
    }
}

fn parse_compare_value(value: &[char]) -> (r: (CompareOp, bool, Vec<char>))
    ensures
        (r.0, r.1, r.2@) == compare_value_spec(value@),
{
    let (negated, rest) = parse_negation(value);
    let (op, val) = parse_op_prefix(&rest);
    (op, negated, val)
}

fn parse_date_filter(value: &[char]) -> (r: Result<DateFilter, ParcError>)
    ensures
        match r {
            Ok(d) => date_filter_spec(value@) == Ok::<SDate, Seq<char>>(d@),
            Err(e) => e matches ParcError::ParseError(m) && date_filter_spec(value@) == Err::<
                SDate,
                Seq<char>,
            >(m@),
        },
{
    let (op, val) = parse_op_prefix(value);
    match parse_relative_chars(&val) {
        Some(rel) => Ok(DateFilter::Relative(rel)),
        None => {
            let s = string_of(&val);
            if is_ymd_date(s.as_str()) {
                Ok(DateFilter::Absolute { op, date: s })
            } else {
                Err(ParcError::ParseError(concat3("invalid date '", &val, "'")))
            }
        },
    }
}

fn parse_filter(field: &[char], value: &[char]) -> (r: Result<Filter, ParcError>)
    ensures
        match r {
            Ok(f) => parse_filter_spec(field@, value@) == Ok::<SFilter, Seq<char>>(f@),
            Err(e) => e matches ParcError::ParseError(m) && parse_filter_spec(field@, value@)
                == Err::<SFilter, Seq<char>>(m@),
        },
{
    let (negated, val) = parse_negation(value);
    if eq_str(field, "type") {
        Ok(Filter::Type { value: string_of(&val), negated })
    } else if eq_str(field, "status") {
        Ok(Filter::Status { value: string_of(&val), negated })
    } else if eq_str(field, "priority") {
        let (op, n, v) = parse_compare_value(value);
        Ok(Filter::Priority { op, value: string_of(&v), negated: n })
    } else if eq_str(field, "tag") {
        let l = lower_chars(&val);
        Ok(Filter::Tag { value: string_of(&l), negated })
    } else if eq_str(field, "due") {
        match parse_date_filter(value) {
            Ok(d) => Ok(Filter::Due(d)),
            Err(e) => Err(e),
        }
    } else if eq_str(field, "created") {
        match parse_date_filter(value) {
            Ok(d) => Ok(Filter::Created(d)),
            Err(e) => Err(e),
        }
    } else if eq_str(field, "updated") {
        match parse_date_filter(value) {
            Ok(d) => Ok(Filter::Updated(d)),
            Err(e) => Err(e),
        }
    } else if eq_str(field, "by") {
        Ok(Filter::CreatedBy { value: string_of(&val), negated })
    } else if eq_str(field, "has") {
        if eq_str(value, "attachments") {
            Ok(Filter::Has(HasCondition::Attachments))
        } else if eq_str(value, "links") {
            Ok(Filter::Has(HasCondition::Links))
        } else if eq_str(value, "due") {
            Ok(Filter::Has(HasCondition::Due))
        } else {
            Err(ParcError::ParseError(concat3("unknown has: condition '", value, "'")))
        }
    } else if eq_str(field, "linked") {
        Ok(Filter::Linked(string_of(value)))
    } else {
        Err(ParcError::ParseError(concat3("unknown filter field '", field, "'")))
    }
}

fn is_filter_field_exec(f: &[char]) -> (b: bool)
    ensures
        b == is_filter_field(f@),
{
    eq_str(f, "type") || eq_str(f, "status") || eq_str(f, "priority") || eq_str(f, "tag")
        || eq_str(f, "due") || eq_str(f, "created") || eq_str(f, "updated") || eq_str(f, "by")
        || eq_str(f, "has") || eq_str(f, "linked")
}

/// Parse a DSL query string into a SearchQuery AST.
pub fn parse_query(input: &str) -> (r: Result<SearchQuery, ParcError>)
    ensures
        match r {
            Ok(q) => {
                &&& parse_query_spec(input@) == Ok::<SQuery, Seq<char>>(q.model())
                &&& q.sort == SortOrder::UpdatedDesc
                &&& q.limit.is_none()
            },
            Err(e) => e matches ParcError::ParseError(m) && parse_query_spec(input@) == Err::<
                SQuery,
                Seq<char>,
            >(m@),
        },
{
    let raw = chars_of(input);
    let s = trim_chars(&raw);
    let mut terms: Vec<TextTerm> = Vec::new();
    let mut filters: Vec<Filter> = Vec::new();
    let mut i: usize = 0;
    let ghost full = parse_rest(s@, 0);
    while i < s.len()
        invariant
            i <= s.len(),
            s@ == trim(input@),
            full == parse_rest(s@, 0),
            full == combine(terms_view(terms@), filters_view(filters@), parse_rest(s@, i as int)),
        decreases s.len() - i,
    {
        let ghost ti = terms_view(terms@);
        let ghost fi = filters_view(filters@);
        let j = skip_ws_at(&s, i);
        proof {
            lemma_skip_ws_bounds(s@, i as int);
        }
        if j >= s.len() {
            i = j;
        } else if s[j] == '"' {
            let k = find_char_at(&s, '"', j + 1);
            proof {
                lemma_find_from_bounds(s@, '"', j + 1);
            }
            let next = if k < s.len() { k + 1 } else { k };
            let phrase = slice_vec(&s, j + 1, k);
            if phrase.len() > 0 {
                terms.push(TextTerm::Phrase(string_of(&phrase)));
                assert(terms_view(terms@) =~= ti + seq![STerm::Phrase(phrase@)]);
                proof {
                    lemma_combine_term(ti, fi, STerm::Phrase(phrase@), parse_rest(s@, next as int));
                }
            }
            i = next;
        } else if s[j] == '#' {
            let k = word_end_at(&s, j + 1);
            proof {
                lemma_word_end_bounds(s@, j + 1);
            }
            let w = slice_vec(&s, j + 1, k);
            if w.len() > 0 {
                let l = lower_chars(&w);
                filters.push(Filter::Tag { value: string_of(&l), negated: false });
                assert(filters_view(filters@) =~= fi + seq![
                    SFilter::Tag { value: lower(w@), negated: false },
                ]);
                proof {
                    lemma_combine_filter(
                        ti,
                        fi,
                        SFilter::Tag { value: lower(w@), negated: false },
                        parse_rest(s@, k as int),
                    );
                }
            }
            i = k;
        } else {
            let k = word_end_at(&s, j);
            proof {
                lemma_word_end_bounds(s@, j as int);
                lemma_word_end_bounds(s@, j + 1);
                assert(word_end(s@, j as int) == word_end(s@, j + 1));
            }
            let tok = slice_vec(&s, j, k);
            let p = find_char_at(&tok, ':', 0);
            proof {
                lemma_find_from_bounds(tok@, ':', 0);
            }
            let mut pushed = false;
            if p < tok.len() {
                let field = slice_vec(&tok, 0, p);
                let value = slice_vec(&tok, p + 1, tok.len());
                assert(value@.len() > 0 <==> p + 1 < tok@.len());
                if is_filter_field_exec(&field) && value.len() > 0 {
                    match parse_filter(&field, &value) {
                        Ok(f) => {
                            let ghost fv = f@;
                            filters.push(f);
                            assert(filters_view(filters@) =~= fi + seq![fv]);
                            proof {
                                lemma_combine_filter(ti, fi, fv, parse_rest(s@, k as int));
                            }
                            pushed = true;
                        },
                        Err(e) => {
                            return Err(e);
                        },
                    }
                }
            }
            if !pushed {
                terms.push(TextTerm::Word(string_of(&tok)));
                assert(terms_view(terms@) =~= ti + seq![STerm::Word(tok@)]);
                proof {
                    lemma_combine_term(ti, fi, STerm::Word(tok@), parse_rest(s@, k as int));
                }
            }
            i = k;
        }
    }
    proof {
        lemma_skip_ws_bounds(s@, i as int);
        assert(terms_view(terms@) + Seq::<STerm>::empty() =~= terms_view(terms@));
        assert(filters_view(filters@) + Seq::<SFilter>::empty() =~= filters_view(filters@));
    }
    Ok(SearchQuery { text_terms: terms, filters, sort: SortOrder::UpdatedDesc, limit: None })
}

// ── Laws ─────────────────────────────────────────────────────────────

proof fn lemma_word_end_all(s: Seq<char>, i: int)
    requires
        0 <= i <= s.len(),
        forall|t: int| 0 <= t < s.len() ==> !is_ws(#[trigger] s[t]),
    ensures
        word_end(s, i) == s.len(),
    decreases s.len() - i,
{
    if i < s.len() {
        lemma_word_end_all(s, i + 1);
    }
}

proof fn lemma_trim_word(s: Seq<char>)
    requires
        s.len() > 0,
        forall|t: int| 0 <= t < s.len() ==> !is_ws(#[trigger] s[t]),
    ensures
        trim(s) == s,
{
    assert(skip_ws(s, 0) == 0);
    assert(rtrim_len(s) == s.len());
    assert(s.subrange(0, s.len() as int) =~= s);
}

/// The two tag syntaxes are one: `#w` and `tag:w` denote the same query,
/// a filter on tag `w` lowercased, for any word `w` (no whitespace, not
/// starting with the negation `!`).
pub proof fn hashtag_is_tag_filter(w: Seq<char>)
    requires
        w.len() > 0,
        w[0] != '!',
        forall|t: int| 0 <= t < w.len() ==> !is_ws(#[trigger] w[t]),
    ensures
        parse_query_spec(seq!['#'] + w) == parse_query_spec(seq!['t', 'a', 'g', ':'] + w),
        parse_query_spec(seq!['#'] + w) == Ok::<SQuery, Seq<char>>(
            SQuery { terms: Seq::empty(), filters: seq![SFilter::Tag { value: lower(w), negated: false }] },
        ),
{
    reveal_strlit("tag");
    reveal_strlit("type");
    reveal_strlit("status");
    reveal_strlit("priority");
    let h = seq!['#'] + w;
    let t = seq!['t', 'a', 'g', ':'] + w;
    assert forall|i: int| 0 <= i < h.len() implies !is_ws(#[trigger] h[i]) by {
        if i > 0 {
            assert(h[i] == w[i - 1]);
        }
    }
    assert forall|i: int| 0 <= i < t.len() implies !is_ws(#[trigger] t[i]) by {
        if i >= 4 {
            assert(t[i] == w[i - 4]);
        }
    }
    lemma_trim_word(h);
    lemma_trim_word(t);
    lemma_word_end_all(h, 1);
    lemma_word_end_all(t, 0);
    let empty = Ok::<SQuery, Seq<char>>(SQuery { terms: Seq::empty(), filters: Seq::empty() });
    assert(skip_ws(h, h.len() as int) == h.len());
    assert(parse_rest(h, h.len() as int) == empty);
    assert(skip_ws(t, t.len() as int) == t.len());
    assert(parse_rest(t, t.len() as int) == empty);
    assert(h.subrange(1, h.len() as int) =~= w);
    assert(skip_ws(h, 0) == 0);
    assert(skip_ws(t, 0) == 0);
    assert(t.subrange(0, t.len() as int) =~= t);
    assert(find_from(t, ':', 3) == 3);
    assert(find_from(t, ':', 2) == 3);
    assert(find_from(t, ':', 1) == 3);
    assert(find_from(t, ':', 0) == 3);
    assert(t.subrange(0, 3) =~= "tag"@);
    assert(t.subrange(4, t.len() as int) =~= w);
    assert("tag"@ != "type"@ && "tag"@ != "status"@ && "tag"@ != "priority"@);
    assert(negation_spec(w) == (false, w));
    assert(seq![SFilter::Tag { value: lower(w), negated: false }] + Seq::<SFilter>::empty() =~= seq![
        SFilter::Tag { value: lower(w), negated: false },
    ]);
}


/// A query made of one `field:value` token, the field a filter field and
/// the value a non-empty word, denotes that one filter (or its error).
proof fn lemma_single_filter_token(f: Seq<char>, w: Seq<char>)
    requires
        is_filter_field(f),
        f.len() > 0,
        f[0] != '"' && f[0] != '#',
        forall|t: int| 0 <= t < f.len() ==> !is_ws(#[trigger] f[t]) && f[t] != ':',
        w.len() > 0,
        forall|t: int| 0 <= t < w.len() ==> !is_ws(#[trigger] w[t]),
    ensures
        parse_query_spec(f + seq![':'] + w) == match parse_filter_spec(f, w) {
            Ok(x) => Ok::<SQuery, Seq<char>>(SQuery { terms: Seq::empty(), filters: seq![x] }),
            Err(e) => Err(e),
        },
{
    let t = f + seq![':'] + w;
    let n = f.len() as int;
    assert forall|i: int| 0 <= i < t.len() implies !is_ws(#[trigger] t[i]) by {
        if i < n {
            assert(t[i] == f[i]);
        } else if i > n {
            assert(t[i] == w[i - n - 1]);
        }
    }
    lemma_trim_word(t);
    lemma_word_end_all(t, 0);
    assert(skip_ws(t, 0) == 0);
    assert(skip_ws(t, t.len() as int) == t.len());
    let empty = Ok::<SQuery, Seq<char>>(SQuery { terms: Seq::empty(), filters: Seq::empty() });
    assert(parse_rest(t, t.len() as int) == empty);
    assert(t.subrange(0, t.len() as int) =~= t);
    lemma_find_from_bounds(t, ':', 0);
    let p = find_from(t, ':', 0);
    assert(t[n] == ':');
    if p < n {
        assert(t[p] == f[p]);
    }
    assert(p == n);
    assert(t.subrange(0, n) =~= f);
    assert(t.subrange(n + 1, t.len() as int) =~= w);
    match parse_filter_spec(f, w) {
        Ok(x) => {
            assert(seq![x] + Seq::<SFilter>::empty() =~= seq![x]);
        },
        Err(e) => {},
    }
}

/// The field name selects the filter kind: a value that reads as a date
/// filter `d` makes `due:` a filter on the due date, `created:` one on the
/// creation date and `updated:` one on the date of the last change, each
/// with that same `d`; and so does the query that is that one token.
pub proof fn date_fields_select_kind(v: Seq<char>, d: SDate)
    requires
        date_filter_spec(v) == Ok::<SDate, Seq<char>>(d),
    ensures
        parse_filter_spec("due"@, v) == Ok::<SFilter, Seq<char>>(SFilter::Due(d)),
        parse_filter_spec("created"@, v) == Ok::<SFilter, Seq<char>>(SFilter::Created(d)),
        parse_filter_spec("updated"@, v) == Ok::<SFilter, Seq<char>>(SFilter::Updated(d)),
        v.len() > 0 && (forall|t: int| 0 <= t < v.len() ==> !is_ws(#[trigger] v[t])) ==> {
            &&& parse_query_spec("due:"@ + v) == Ok::<SQuery, Seq<char>>(
                SQuery { terms: Seq::empty(), filters: seq![SFilter::Due(d)] },
            )
            &&& parse_query_spec("created:"@ + v) == Ok::<SQuery, Seq<char>>(
                SQuery { terms: Seq::empty(), filters: seq![SFilter::Created(d)] },
            )
            &&& parse_query_spec("updated:"@ + v) == Ok::<SQuery, Seq<char>>(
                SQuery { terms: Seq::empty(), filters: seq![SFilter::Updated(d)] },
            )
        },
{
    reveal_strlit("type");
    reveal_strlit("status");
    reveal_strlit("priority");
    reveal_strlit("tag");
    reveal_strlit("due");
    reveal_strlit("created");
    reveal_strlit("updated");
    reveal_strlit("due:");
    reveal_strlit("created:");
    reveal_strlit("updated:");
    assert("due"@.len() == 3 && "type"@.len() == 4 && "status"@.len() == 6);
    assert("priority"@.len() == 8 && "created"@.len() == 7 && "updated"@.len() == 7);
    assert("due"@[0] != "tag"@[0] && "created"@[0] != "updated"@[0]);
    assert("due"@ != "type"@ && "due"@ != "status"@ && "due"@ != "priority"@ && "due"@ != "tag"@);
    assert("created"@ != "type"@ && "created"@ != "status"@ && "created"@ != "priority"@
        && "created"@ != "tag"@ && "created"@ != "due"@);
    assert("updated"@ != "type"@ && "updated"@ != "status"@ && "updated"@ != "priority"@
        && "updated"@ != "tag"@ && "updated"@ != "due"@ && "updated"@ != "created"@);
    if v.len() > 0 && (forall|t: int| 0 <= t < v.len() ==> !is_ws(#[trigger] v[t])) {
        assert("due:"@ + v =~= "due"@ + seq![':'] + v);
        assert("created:"@ + v =~= "created"@ + seq![':'] + v);
        assert("updated:"@ + v =~= "updated"@ + seq![':'] + v);
        lemma_single_filter_token("due"@, v);
        lemma_single_filter_token("created"@, v);
        lemma_single_filter_token("updated"@, v);
    }
}

/// A leading `!` negates a `type:`, `status:`, `by:`, `tag:` or
/// `priority:` filter, and the value compared is what follows it (a tag
/// lowercased, a priority after its comparison operator); without it the
/// filter is plain. A `linked:` value is taken as it is.
pub proof fn negation_marks_filter(v: Seq<char>)
    requires
        v.len() == 0 || v[0] != '!',
    ensures
        parse_filter_spec("type"@, seq!['!'] + v) == Ok::<SFilter, Seq<char>>(
            SFilter::Type { value: v, negated: true },
        ),
        parse_filter_spec("status"@, seq!['!'] + v) == Ok::<SFilter, Seq<char>>(
            SFilter::Status { value: v, negated: true },
        ),
        parse_filter_spec("by"@, seq!['!'] + v) == Ok::<SFilter, Seq<char>>(
            SFilter::CreatedBy { value: v, negated: true },
        ),
        parse_filter_spec("tag"@, seq!['!'] + v) == Ok::<SFilter, Seq<char>>(
            SFilter::Tag { value: lower(v), negated: true },
        ),
        parse_filter_spec("priority"@, seq!['!'] + v) == Ok::<SFilter, Seq<char>>(
            SFilter::Priority { op: op_prefix_spec(v).0, value: op_prefix_spec(v).1, negated: true },
        ),
        parse_filter_spec("type"@, v) == Ok::<SFilter, Seq<char>>(
            SFilter::Type { value: v, negated: false },
        ),
        parse_filter_spec("tag"@, v) == Ok::<SFilter, Seq<char>>(
            SFilter::Tag { value: lower(v), negated: false },
        ),
        parse_filter_spec("priority"@, v) == Ok::<SFilter, Seq<char>>(
            SFilter::Priority { op: op_prefix_spec(v).0, value: op_prefix_spec(v).1, negated: false },
        ),
        parse_filter_spec("linked"@, v) == Ok::<SFilter, Seq<char>>(SFilter::Linked(v)),
        parse_filter_spec("status"@, v) == Ok::<SFilter, Seq<char>>(
            SFilter::Status { value: v, negated: false },
        ),
        parse_filter_spec("by"@, v) == Ok::<SFilter, Seq<char>>(
            SFilter::CreatedBy { value: v, negated: false },
        ),
{
    reveal_strlit("type");
    reveal_strlit("status");
    reveal_strlit("priority");
    reveal_strlit("tag");
    reveal_strlit("due");
    reveal_strlit("created");
    reveal_strlit("updated");
    reveal_strlit("by");
    assert("by"@.len() == 2 && "type"@.len() == 4 && "status"@.len() == 6);
    assert("priority"@.len() == 8 && "created"@.len() == 7 && "updated"@.len() == 7);
    assert("due"@.len() == 3 && "tag"@.len() == 3);
    reveal_strlit("has");
    reveal_strlit("linked");
    assert("has"@.len() == 3 && "linked"@.len() == 6);
    assert("has"@[0] != "due"@[0] && "has"@[0] != "tag"@[0]);
    assert("linked"@[0] != "status"@[0]);
    assert("status"@ != "type"@);
    assert("tag"@ != "type"@ && "tag"@ != "status"@ && "tag"@ != "priority"@);
    assert("priority"@ != "type"@ && "priority"@ != "status"@);
    assert("linked"@ != "type"@ && "linked"@ != "status"@ && "linked"@ != "priority"@ && "linked"@ != "tag"@
        && "linked"@ != "due"@ && "linked"@ != "created"@ && "linked"@ != "updated"@ && "linked"@ != "by"@
        && "linked"@ != "has"@);
    assert("by"@ != "type"@ && "by"@ != "status"@ && "by"@ != "priority"@ && "by"@ != "tag"@
        && "by"@ != "due"@ && "by"@ != "created"@ && "by"@ != "updated"@);
    assert((seq!['!'] + v).drop_first() =~= v);
}

/// The word after `has:` that names a condition.
pub open spec fn has_word(c: HasCondition) -> Seq<char> {
    match c {
        HasCondition::Attachments => "attachments"@,
        HasCondition::Links => "links"@,
        HasCondition::Due => "due"@,
    }
}

/// `has:` takes exactly the three condition words, each naming its own
/// condition; any other value is refused with a message that quotes it.
pub proof fn has_words_name_conditions(v: Seq<char>, c: HasCondition)
    ensures
        parse_filter_spec("has"@, v) == Ok::<SFilter, Seq<char>>(SFilter::Has(c)) <==> v == has_word(c),
        v != "attachments"@ && v != "links"@ && v != "due"@ ==> parse_filter_spec("has"@, v) == Err::<
            SFilter,
            Seq<char>,
        >("unknown has: condition '"@ + v + "'"@),
{
    reveal_strlit("type");
    reveal_strlit("status");
    reveal_strlit("priority");
    reveal_strlit("tag");
    reveal_strlit("due");
    reveal_strlit("created");
    reveal_strlit("updated");
    reveal_strlit("by");
    reveal_strlit("has");
    reveal_strlit("attachments");
    reveal_strlit("links");
    assert("has"@.len() == 3 && "type"@.len() == 4 && "status"@.len() == 6 && "by"@.len() == 2);
    assert("priority"@.len() == 8 && "created"@.len() == 7 && "updated"@.len() == 7);
    assert("has"@[0] != "due"@[0] && "has"@[0] != "tag"@[0]);
    assert("attachments"@.len() == 11 && "links"@.len() == 5 && "due"@.len() == 3);
    assert("has"@ != "type"@ && "has"@ != "status"@ && "has"@ != "priority"@ && "has"@ != "tag"@
        && "has"@ != "due"@ && "has"@ != "created"@ && "has"@ != "updated"@ && "has"@ != "by"@);
    assert("attachments"@ != "links"@ && "attachments"@ != "due"@ && "links"@ != "due"@);
}

/// A comparison operator is read off the front of a value, the two-character
/// ones first: `>=` and `<=` as such, a lone `>` or `<` as strict, and no
/// operator as equality; what follows the operator is the value.
pub proof fn comparison_prefixes(v: Seq<char>)
    ensures
        op_prefix_spec(seq!['>', '='] + v) == (CompareOp::Gte, v),
        op_prefix_spec(seq!['<', '='] + v) == (CompareOp::Lte, v),
        (v.len() == 0 || v[0] != '=') ==> op_prefix_spec(seq!['>'] + v) == (CompareOp::Gt, v),
        (v.len() == 0 || v[0] != '=') ==> op_prefix_spec(seq!['<'] + v) == (CompareOp::Lt, v),
        (v.len() == 0 || (v[0] != '>' && v[0] != '<')) ==> op_prefix_spec(v) == (CompareOp::Eq, v),
{
    reveal_strlit(">=");
    reveal_strlit("<=");
    let a = seq!['>', '='] + v;
    let b = seq!['<', '='] + v;
    assert(a.subrange(0, 2) =~= ">="@);
    assert(a.subrange(2, a.len() as int) =~= v);
    assert(b.subrange(0, 2) =~= "<="@);
    assert(b.subrange(2, b.len() as int) =~= v);
    assert(b[0] != ">="@[0]);
    let g = seq!['>'] + v;
    let l = seq!['<'] + v;
    assert(g.drop_first() =~= v);
    assert(l.drop_first() =~= v);
    if v.len() == 0 || v[0] != '=' {
        if g.len() >= 2 {
            assert(g.subrange(0, 2)[1] == v[0]);
        }
        if l.len() >= 2 {
            assert(l.subrange(0, 2)[1] == v[0]);
            assert(l.subrange(0, 2)[0] != ">="@[0]);
        }
    }
    if v.len() > 0 && v[0] != '>' && v[0] != '<' {
        if v.len() >= 2 {
            assert(v.subrange(0, 2)[0] == v[0]);
        }
    }
}

} // verus!

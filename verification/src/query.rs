//! The whitelist-gated aggregate query builder.
//!
//! A query names an aggregate over a span column or a span attribute,
//! optional equality filters, an optional grouping column, and an
//! optional time-bucket width. Column names are interpolated into the
//! SQL as identifiers, so every one of them is checked against a
//! fixed whitelist before any text is built; literal values only ever
//! travel through bind placeholders.

use vstd::prelude::*;

use crate::codec::dec_of;
use crate::model::ErrorKind;
use crate::sqlgen::{BindValue, Statement};

verus! {

/// The aggregate function and its target: a whitelisted span column
/// or a named span attribute, depending on the aggregate source.
pub enum AggregateType {
    Count,
    Sum(String),
    Avg(String),
    Min(String),
    Max(String),
}

/// The width unit of a time bucket.
#[derive(Clone, Copy, Debug, PartialEq, Eq, Structural)]
pub enum TimeBin {
    Second,
    Minute,
    Hour,
    Day,
}

/// A time-bucket width: a unit and a positive multiplier.
#[derive(Clone, Copy, Debug, PartialEq, Eq, Structural)]
pub struct TimeBinQuery {
    pub bin: TimeBin,
    pub value: u32,
}

/// One equality filter over a whitelisted span column.
pub struct Filter {
    pub column: String,
    pub value: String,
}

/// Whether the aggregate target is a span column or a span attribute.
#[derive(Clone, Copy, Debug, PartialEq, Eq, Structural)]
pub enum AggregateSource {
    SpanColumn,
    SpanAttribute,
}

/// An aggregate: its function and its source.
pub struct Aggregate {
    pub agg_type: AggregateType,
    pub source: AggregateSource,
}

/// A full query specification.
pub struct QuerySpec {
    pub aggregate: Aggregate,
    pub filters: Option<Vec<Filter>>,
    pub group: Option<String>,
    pub time_bin: Option<TimeBinQuery>,
}

/// Whether a name is one of the fixed span columns that may be
/// interpolated into SQL as an identifier. Nothing else ever is —
/// this list is the injection defense.
pub open spec fn allowed_column(s: Seq<char>) -> bool {
    ||| s == "trace_id"@
    ||| s == "operation_name"@
    ||| s == "started_at"@
    ||| s == "ended_at"@
    ||| s == "duration_ns"@
    ||| s == "status_code"@
    ||| s == "kind"@
    ||| s == "instrumentation_library"@
    ||| s == "service_name"@
}

/// Checks a name against the span column whitelist.
pub fn is_allowed_column(c: &String) -> (r: bool)
    ensures
        r == allowed_column(c@),
{
    *c == String::from_str("trace_id") || *c == String::from_str("operation_name") || *c
        == String::from_str("started_at") || *c == String::from_str("ended_at") || *c
        == String::from_str("duration_ns") || *c == String::from_str("status_code") || *c
        == String::from_str("kind") || *c == String::from_str("instrumentation_library") || *c
        == String::from_str("service_name")
}

/// The SQL name of a bucket unit.
pub open spec fn unit_text(b: TimeBin) -> Seq<char> {
    match b {
        TimeBin::Second => "second"@,
        TimeBin::Minute => "minute"@,
        TimeBin::Hour => "hour"@,
        TimeBin::Day => "day"@,
    }
}

/// The bucketing SELECT fragment of a query: a DATE_BIN anchored at
/// the Unix epoch, so bucket edges are stable across queries.
pub open spec fn time_bin_sql_spec(q: TimeBinQuery) -> Seq<char> {
    "DATE_BIN(INTERVAL '"@ + dec_of(q.value as nat) + " "@ + unit_text(q.bin)
        + "', started_at, '1970-01-01 00:00:00'::TIMESTAMPTZ) AS time_bin,"@
}

/// Renders the bucketing SELECT fragment for a bucket width.
pub fn time_bin_to_sql(input: &TimeBinQuery) -> (r: String)
    ensures
        r@ == time_bin_sql_spec(*input),
{
    let mut r = String::from_str("DATE_BIN(INTERVAL '");
    let digits = crate::codec::u64_to_dec(input.value as u64);
    r.append(digits.as_str());
    r.append(" ");
    match input.bin {
        TimeBin::Second => r.append("second"),
        TimeBin::Minute => r.append("minute"),
        TimeBin::Hour => r.append("hour"),
        TimeBin::Day => r.append("day"),
    }
    r.append("', started_at, '1970-01-01 00:00:00'::TIMESTAMPTZ) AS time_bin,");
    proof {
        assert(r@ =~= time_bin_sql_spec(*input));
    }
    r
}

/// The bucket width a query uses: the declared one, or one-minute
/// buckets.
pub open spec fn tb_or_default(o: Option<TimeBinQuery>) -> TimeBinQuery {
    match o {
        Some(t) => t,
        None => TimeBinQuery { bin: TimeBin::Minute, value: 1 },
    }
}

/// Whether the query binds an attribute key: an attribute-sourced
/// aggregate other than a plain count.
pub open spec fn has_attr_key(q: QuerySpec) -> bool {
    q.aggregate.source is SpanAttribute && !(q.aggregate.agg_type is Count)
}

/// The attribute key or column the aggregate names.
pub open spec fn agg_target(t: AggregateType) -> Seq<char> {
    match t {
        AggregateType::Count => Seq::empty(),
        AggregateType::Sum(k) => k@,
        AggregateType::Avg(k) => k@,
        AggregateType::Min(k) => k@,
        AggregateType::Max(k) => k@,
    }
}

/// The SQL name of the aggregate function.
pub open spec fn agg_fn_text(t: AggregateType) -> Seq<char> {
    match t {
        AggregateType::Count => "COUNT"@,
        AggregateType::Sum(k) => "SUM"@,
        AggregateType::Avg(k) => "AVG"@,
        AggregateType::Min(k) => "MIN"@,
        AggregateType::Max(k) => "MAX"@,
    }
}

/// How many equality filters the query carries.
pub open spec fn nf(q: QuerySpec) -> nat {
    match q.filters {
        Some(fs) => fs@.len(),
        None => 0,
    }
}

/// Whether every column name the query would interpolate is on the
/// whitelist: the grouping column, a column-sourced aggregate target,
/// and every filter column. An attribute key is bound, never
/// interpolated, so it is not checked here.
pub open spec fn query_columns_ok(q: QuerySpec) -> bool {
    &&& match q.group {
        Some(g) => allowed_column(g@),
        None => true,
    }
    &&& (q.aggregate.source is SpanColumn ==> (q.aggregate.agg_type is Count || allowed_column(
        agg_target(q.aggregate.agg_type),
    )))
    &&& match q.filters {
        Some(fs) => forall|i: int|
            0 <= i < fs@.len() ==> allowed_column((#[trigger] fs@[i]).column@),
        None => true,
    }
}

/// The grouping fragment of the SELECT list.
pub open spec fn group_sel_sql(q: QuerySpec) -> Seq<char> {
    match q.group {
        Some(g) => "\n"@ + g@ + " AS group, "@,
        None => Seq::empty(),
    }
}

/// The aggregate fragment of the SELECT list. A column target is
/// interpolated; an attribute target reads `attributes ->> $1` with
/// the key bound, coalescing to zero when no row matches.
pub open spec fn agg_sel_sql(q: QuerySpec) -> Seq<char> {
    if q.aggregate.source is SpanColumn {
        if q.aggregate.agg_type is Count {
            "\nCOUNT(*)::DOUBLE PRECISION AS value"@
        } else {
            "\n"@ + agg_fn_text(q.aggregate.agg_type) + "("@ + agg_target(q.aggregate.agg_type)
                + ")::DOUBLE PRECISION AS value"@
        }
    } else {
        if q.aggregate.agg_type is Count {
            "COUNT(*)::DOUBLE PRECISION AS value"@
        } else {
            "COALESCE("@ + agg_fn_text(q.aggregate.agg_type)
                + "((attributes ->> $1)::DOUBLE PRECISION), 0.0) AS value"@
        }
    }
}

/// The text of the first `i` filters, each `column = $n` with the
/// value bound, joined by AND; placeholders are numbered from
/// `start`.
pub open spec fn filters_sql(fs: Seq<Filter>, i: int, start: nat) -> Seq<char>
    decreases i,
{
    if i <= 0 {
        Seq::empty()
    } else if i == 1 {
        fs[0].column@ + " = $"@ + dec_of(start)
    } else {
        filters_sql(fs, i - 1, start) + " AND "@ + fs[i - 1].column@ + " = $"@ + dec_of(
            (start + i - 1) as nat,
        )
    }
}

/// The WHERE clause of the query: the equality filters, and for an
/// attribute-sourced aggregate the requirement that the attribute
/// exist — and be numeric for a non-count aggregate — with the key
/// bound, never interpolated.
pub open spec fn where_sql(q: QuerySpec) -> Seq<char> {
    let fstart: nat = if has_attr_key(q) {
        2
    } else {
        1
    };
    let filter_part: Seq<char> = if nf(q) > 0 {
        "\nWHERE "@ + filters_sql(q.filters->0@, nf(q) as int, fstart)
    } else {
        Seq::empty()
    };
    if q.aggregate.source is SpanAttribute {
        let sep: Seq<char> = if nf(q) > 0 {
            " AND "@
        } else {
            "\nWHERE "@
        };
        let kb: nat = fstart + nf(q);
        let key_part: Seq<char> = if has_attr_key(q) {
            " AND attributes ? $"@ + dec_of(kb) + " AND jsonb_typeof(attributes -> $"@ + dec_of(
                kb + 1,
            ) + ") = 'number'"@
        } else {
            Seq::empty()
        };
        filter_part + sep + "attributes IS NOT NULL"@ + key_part
    } else {
        filter_part
    }
}

/// The grouping and ordering tail of the query: grouped and ordered
/// by bucket start, then by the group column when one is named.
pub open spec fn tail_sql(q: QuerySpec) -> Seq<char> {
    let g: Seq<char> = match q.group {
        Some(g) => ", "@ + g@,
        None => Seq::empty(),
    };
    "\nGROUP BY time_bin"@ + g + "\nORDER BY time_bin"@ + g
}

/// The whole statement text of a valid query.
pub open spec fn query_sql_spec(q: QuerySpec) -> Seq<char> {
    "SELECT "@ + time_bin_sql_spec(tb_or_default(q.time_bin)) + group_sel_sql(q) + agg_sel_sql(q)
        + "\nFROM span "@ + where_sql(q) + tail_sql(q)
}

/// Whether a bind list carries exactly the query's literal values:
/// the attribute key first when the SELECT reads it, then each filter
/// value in order, then the attribute key twice more for the WHERE
/// predicates.
pub open spec fn query_binds_ok(binds: Seq<BindValue>, q: QuerySpec) -> bool {
    let kn: nat = if has_attr_key(q) {
        1
    } else {
        0
    };
    &&& binds.len() == kn + nf(q) + 2 * kn
    &&& (has_attr_key(q) ==> (binds[0] matches BindValue::Text(s) && s@ == agg_target(
        q.aggregate.agg_type,
    )))
    &&& forall|i: int|
        0 <= i < nf(q) ==> ((#[trigger] binds[kn as int + i]) matches BindValue::Text(s) && s@
            == q.filters->0@[i].value@)
    &&& (has_attr_key(q) ==> (binds[(kn + nf(q)) as int] matches BindValue::Text(s) && s@ == agg_target(
        q.aggregate.agg_type,
    )) && (binds[(kn + nf(q) + 1) as int] matches BindValue::Text(s2) && s2@ == agg_target(
        q.aggregate.agg_type,
    )))
}

fn agg_target_string(t: &AggregateType) -> (r: String)
    requires
        !(t is Count),
    ensures
        r@ == agg_target(*t),
{
    match t {
        AggregateType::Count => String::new(),
        AggregateType::Sum(k) => k.clone(),
        AggregateType::Avg(k) => k.clone(),
        AggregateType::Min(k) => k.clone(),
        AggregateType::Max(k) => k.clone(),
    }
}

fn push_param(sql: &mut String, n: u64)
    ensures
        final(sql)@ == old(sql)@ + "$"@ + dec_of(n as nat),
{
    sql.append("$");
    let digits = crate::codec::u64_to_dec(n);
    sql.append(digits.as_str());
}

/// Compiles a query specification into one parameterized statement,
/// or rejects it before any SQL text is assembled when it names a
/// grouping, filter, or column-aggregate column outside the
/// whitelist.
#[verifier::loop_isolation(false)]
fn validate_columns(params: &QuerySpec) -> (r: bool)
    ensures
        r == query_columns_ok(*params),
{
    match &params.group {
        Some(g) => {
            if !is_allowed_column(g) {
                return false;
            }
        },
        None => {},
    }
    match &params.aggregate.source {
        AggregateSource::SpanColumn => {
            match &params.aggregate.agg_type {
                AggregateType::Count => {},
                AggregateType::Sum(k) => {
                    if !is_allowed_column(k) {
                        return false;
                    }
                },
                AggregateType::Avg(k) => {
                    if !is_allowed_column(k) {
                        return false;
                    }
                },
                AggregateType::Min(k) => {
                    if !is_allowed_column(k) {
                        return false;
                    }
                },
                AggregateType::Max(k) => {
                    if !is_allowed_column(k) {
                        return false;
                    }
                },
            }
        },
        AggregateSource::SpanAttribute => {},
    }
    match &params.filters {
        Some(fs) => {
            let mut fi: usize = 0;
            while fi < fs.len()
                invariant
                    fi <= fs@.len(),
                    forall|i: int| 0 <= i < fi ==> allowed_column((#[trigger] fs@[i]).column@),
                decreases fs@.len() - fi,
            {
                if !is_allowed_column(&fs[fi].column) {
                    proof {
                        assert(params.filters == Some(*fs));
                        assert(!allowed_column(params.filters->0@[fi as int].column@));
                    }
                    return false;
                }
                fi = fi + 1;
            }
        },
        None => {},
    }
    true
}

#[verifier::loop_isolation(false)]
#[verifier::spinoff_prover]
fn build_select_head(params: &QuerySpec) -> (r: (String, Vec<BindValue>))
    ensures
        r.0@ == "SELECT "@ + time_bin_sql_spec(tb_or_default(params.time_bin)) + group_sel_sql(
            *params,
        ) + agg_sel_sql(*params) + "\nFROM span "@,
        r.1@.len() == (if has_attr_key(*params) {
            1int
        } else {
            0int
        }),
        has_attr_key(*params) ==> (r.1@[0] matches BindValue::Text(s) && s@ == agg_target(
            params.aggregate.agg_type,
        )),
{
    let mut sql = String::from_str("SELECT ");
    let tb = match &params.time_bin {
        Some(t) => TimeBinQuery { bin: t.bin, value: t.value },
        None => TimeBinQuery { bin: TimeBin::Minute, value: 1 },
    };
    let tb_sql = time_bin_to_sql(&tb);
    sql.append(tb_sql.as_str());
    match &params.group {
        Some(g) => {
            sql.append("\n");
            sql.append(g.as_str());
            sql.append(" AS group, ");
        },
        None => {},
    }
    proof {
        assert(sql@ =~= "SELECT "@ + time_bin_sql_spec(tb_or_default(params.time_bin))
            + group_sel_sql(*params));
    }
    let mut binds: Vec<BindValue> = Vec::new();
    match (&params.aggregate.source, &params.aggregate.agg_type) {
        (AggregateSource::SpanColumn, AggregateType::Count) => {
            sql.append("\nCOUNT(*)::DOUBLE PRECISION AS value");
        },
        (AggregateSource::SpanColumn, t) => {
            sql.append("\n");
            match t {
                AggregateType::Count => {},
                AggregateType::Sum(k) => sql.append("SUM"),
                AggregateType::Avg(k) => sql.append("AVG"),
                AggregateType::Min(k) => sql.append("MIN"),
                AggregateType::Max(k) => sql.append("MAX"),
            }
            sql.append("(");
            let col = agg_target_string(t);
            sql.append(col.as_str());
            sql.append(")::DOUBLE PRECISION AS value");
        },
        (AggregateSource::SpanAttribute, AggregateType::Count) => {
            sql.append("COUNT(*)::DOUBLE PRECISION AS value");
        },
        (AggregateSource::SpanAttribute, t) => {
            sql.append("COALESCE(");
            match t {
                AggregateType::Count => {},
                AggregateType::Sum(k) => sql.append("SUM"),
                AggregateType::Avg(k) => sql.append("AVG"),
                AggregateType::Min(k) => sql.append("MIN"),
                AggregateType::Max(k) => sql.append("MAX"),
            }
            sql.append("((attributes ->> $1)::DOUBLE PRECISION), 0.0) AS value");
            let key = agg_target_string(t);
            binds.push(BindValue::Text(key));
        },
    }
    sql.append("\nFROM span ");
    proof {
        assert(sql@ =~= "SELECT "@ + time_bin_sql_spec(tb_or_default(params.time_bin))
            + group_sel_sql(*params) + agg_sel_sql(*params) + "\nFROM span "@);
    }
    (sql, binds)
}

#[verifier::loop_isolation(false)]
#[verifier::rlimit(100)]
#[verifier::spinoff_prover]
fn append_where(sql: &mut String, binds: &mut Vec<BindValue>, params: &QuerySpec)
    requires
        nf(*params) + 4 <= u64::MAX,
        old(binds)@.len() == (if has_attr_key(*params) {
            1int
        } else {
            0int
        }),
    ensures
        final(sql)@ == old(sql)@ + where_sql(*params),
        final(binds)@.len() == old(binds)@.len() + nf(*params) + (if has_attr_key(*params) {
            2int
        } else {
            0int
        }),
        forall|i: int| 0 <= i < old(binds)@.len() ==> final(binds)@[i] == old(binds)@[i],
        forall|i: int|
            0 <= i < nf(*params) ==> ((#[trigger] final(binds)@[old(binds)@.len() + i]) matches
                BindValue::Text(s) && s@ == params.filters->0@[i].value@),
        has_attr_key(*params) ==> ((final(binds)@[(old(binds)@.len() + nf(*params)) as int]
            matches BindValue::Text(s) && s@ == agg_target(params.aggregate.agg_type))
            && (final(binds)@[(old(binds)@.len() + nf(*params) + 1) as int]
            matches BindValue::Text(s2) && s2@ == agg_target(params.aggregate.agg_type))),
{
    proof {
        reveal_strlit(" = $");
        reveal_strlit(" = ");
        reveal_strlit("$");
        reveal_strlit(" AND attributes ? $");
        reveal_strlit(" AND attributes ? ");
        reveal_strlit(" AND jsonb_typeof(attributes -> $");
        reveal_strlit(" AND jsonb_typeof(attributes -> ");
    }
    let ghost head = sql@;
    let ghost kn: int = if has_attr_key(*params) {
        1int
    } else {
        0int
    };
    let has_key: bool = match (&params.aggregate.source, &params.aggregate.agg_type) {
        (AggregateSource::SpanAttribute, AggregateType::Count) => false,
        (AggregateSource::SpanAttribute, _) => true,
        _ => false,
    };
    let fstart: u64 = if has_key {
        2
    } else {
        1
    };
    let mut nfilters: usize = 0;
    match &params.filters {
        Some(fs) => {
            if fs.len() > 0 {
                sql.append("\nWHERE ");
                let ghost fhead = sql@;
                let mut fi: usize = 0;
                while fi < fs.len()
                    invariant
                        fi <= fs@.len(),
                        sql@ == fhead + filters_sql(fs@, fi as int, fstart as nat),
                        binds@.len() == kn + fi,
                        forall|i: int| 0 <= i < kn ==> binds@[i] == old(binds)@[i],
                        forall|i: int|
                            0 <= i < fi ==> ((#[trigger] binds@[kn + i]) matches BindValue::Text(
                                s,
                            ) && s@ == fs@[i].value@),
                    decreases fs@.len() - fi,
                {
                    if fi > 0 {
                        sql.append(" AND ");
                    }
                    sql.append(fs[fi].column.as_str());
                    sql.append(" = ");
                    push_param(sql, fstart + fi as u64);
                    binds.push(BindValue::Text(fs[fi].value.clone()));
                    proof {
                        assert(sql@ =~= fhead + filters_sql(fs@, fi + 1, fstart as nat));
                    }
                    fi = fi + 1;
                }
                nfilters = fs.len();
            }
        },
        None => {},
    }
    proof {
        assert(nfilters == nf(*params));
        assert(sql@ =~= head + (if nf(*params) > 0 {
            "\nWHERE "@ + filters_sql(params.filters->0@, nf(*params) as int, (if has_attr_key(
                *params,
            ) {
                2nat
            } else {
                1nat
            }))
        } else {
            Seq::<char>::empty()
        }));
    }
    match &params.aggregate.source {
        AggregateSource::SpanAttribute => {
            if nfilters > 0 {
                sql.append(" AND ");
            } else {
                sql.append("\nWHERE ");
            }
            sql.append("attributes IS NOT NULL");
            if has_key {
                let kb: u64 = fstart + nfilters as u64;
                sql.append(" AND attributes ? ");
                push_param(sql, kb);
                sql.append(" AND jsonb_typeof(attributes -> ");
                push_param(sql, kb + 1);
                sql.append(") = 'number'");
                let key = agg_target_string(&params.aggregate.agg_type);
                binds.push(BindValue::Text(key));
                let key2 = agg_target_string(&params.aggregate.agg_type);
                binds.push(BindValue::Text(key2));
            }
        },
        AggregateSource::SpanColumn => {},
    }
    proof {
        assert(sql@ =~= head + where_sql(*params));
    }
}

#[verifier::spinoff_prover]
fn append_tail(sql: &mut String, params: &QuerySpec)
    ensures
        final(sql)@ == old(sql)@ + tail_sql(*params),
{
    sql.append("\nGROUP BY time_bin");
    match &params.group {
        Some(g) => {
            sql.append(", ");
            sql.append(g.as_str());
        },
        None => {},
    }
    sql.append("\nORDER BY time_bin");
    match &params.group {
        Some(g) => {
            sql.append(", ");
            sql.append(g.as_str());
        },
        None => {},
    }
    proof {
        assert(sql@ =~= old(sql)@ + tail_sql(*params));
    }
}

/// Compiles a query specification into one parameterized statement,
/// or rejects it before any SQL text is assembled when it names a
/// grouping, filter, or column-aggregate column outside the
/// whitelist.
#[verifier::spinoff_prover]
pub fn build_query(params: &QuerySpec) -> (r: Result<Statement, ErrorKind>)
    requires
        nf(*params) + 4 <= u64::MAX,
    ensures
        match r {
            Err(e) => e == ErrorKind::InvalidQuery && !query_columns_ok(*params),
            Ok(st) => {
                &&& query_columns_ok(*params)
                &&& st.sql@ == query_sql_spec(*params)
                &&& query_binds_ok(st.binds@, *params)
            },
        },
{
    if !validate_columns(params) {
        return Err(ErrorKind::InvalidQuery);
    }
    let (mut sql, mut binds) = build_select_head(params);
    append_where(&mut sql, &mut binds, params);
    append_tail(&mut sql, params);
    proof {
        assert(sql@ =~= query_sql_spec(*params));
        assert(query_binds_ok(binds@, *params));
    }
    Ok(Statement { sql, binds })
}


/// The width of a bucket unit in seconds.
pub open spec fn unit_secs(b: TimeBin) -> int {
    match b {
        TimeBin::Second => 1,
        TimeBin::Minute => 60,
        TimeBin::Hour => 3600,
        TimeBin::Day => 86400,
    }
}

/// The width of a time bucket in nanoseconds.
pub open spec fn bucket_width_ns(tb: TimeBinQuery) -> int {
    tb.value * unit_secs(tb.bin) * 1_000_000_000
}

/// The bucket an instant falls in: the greatest multiple of the width
/// not above it. Buckets are anchored at the Unix epoch, so their
/// edges are stable whatever range is queried.
pub open spec fn epoch_bucket(ts: u64, w: int) -> int
    recommends
        w > 0,
{
    ts - (ts as int) % w
}

/// Computes the epoch-anchored bucket an instant falls in for a
/// bucket width.
pub fn epoch_bucket_of(ts: u64, tb: &TimeBinQuery) -> (r: u64)
    requires
        tb.value >= 1,
    ensures
        r == epoch_bucket(ts, bucket_width_ns(*tb)),
{
    let secs: u64 = match tb.bin {
        TimeBin::Second => 1,
        TimeBin::Minute => 60,
        TimeBin::Hour => 3600,
        TimeBin::Day => 86400,
    };
    proof {
        assert(1 <= tb.value as int * (secs as int) <= 0x1_0000_0000 * 86400) by (nonlinear_arith)
            requires
                1 <= tb.value as int <= 0x1_0000_0000,
                1 <= secs as int <= 86400,
        ;
    }
    let vs: u128 = (tb.value as u128) * (secs as u128);
    proof {
        assert(1_000_000_000 <= vs * 1_000_000_000 <= 0x1_0000_0000 * 86400 * 1_000_000_000)
            by (nonlinear_arith)
            requires
                1 <= vs as int <= 0x1_0000_0000 * 86400,
        ;
    }
    let w: u128 = vs * 1_000_000_000;
    proof {
        assert(w as int == bucket_width_ns(*tb)) by (nonlinear_arith)
            requires
                vs as int == tb.value as int * (secs as int),
                w as int == vs as int * 1_000_000_000,
                secs as int == unit_secs(tb.bin),
        ;
        if (ts as u128) < w {
            vstd::arithmetic::div_mod::lemma_small_mod(ts as nat, w as nat);
        }
        assert((ts as u128) % w <= ts as u128);
    }
    let b: u128 = (ts as u128) - (ts as u128) % w;
    b as u64
}

/// The predicate selecting instants of one bucket, in a form that
/// names a single closure.
pub open spec fn bucket_pred(b: int, w: int) -> spec_fn(u64) -> bool {
    |ts: u64| epoch_bucket(ts, w) == b
}

/// How many of the given instants fall in the given bucket.
pub open spec fn bucket_count(starts: Seq<u64>, b: int, w: int) -> nat {
    starts.filter(bucket_pred(b, w)).len()
}

/// An instant in no given bucket counts nothing.
proof fn lemma_bucket_count_zero(starts: Seq<u64>, b: int, w: int)
    requires
        forall|k: int| 0 <= k < starts.len() ==> epoch_bucket(#[trigger] starts[k], w) != b,
    ensures
        bucket_count(starts, b, w) == 0,
    decreases starts.len(),
{
    if starts.len() > 0 {
        lemma_bucket_count_zero(starts.drop_last(), b, w);
        starts.drop_last().lemma_filter_len_push(bucket_pred(b, w), starts.last());
        assert(starts.drop_last().push(starts.last()) =~= starts);
    }
}

/// Whether some row carries the given bucket.
pub open spec fn bucket_covered(rows: Seq<(u64, usize)>, b: int) -> bool {
    exists|i: int| 0 <= i < rows.len() && (#[trigger] rows[i]).0 == b
}

/// Evaluates a time-bucketed count over a set of start instants, the
/// way the generated count query groups rows: one entry per
/// epoch-anchored bucket that any instant falls in, carrying how many
/// instants fall in it.
#[verifier::loop_isolation(false)]
#[verifier::rlimit(100)]
#[verifier::spinoff_prover]
pub fn count_per_bucket(starts: &Vec<u64>, tb: &TimeBinQuery) -> (r: Vec<(u64, usize)>)
    requires
        tb.value >= 1,
    ensures
        forall|i: int, j: int| 0 <= i < j < r@.len() ==> (#[trigger] r@[i]).0 != (#[trigger] r@[j]).0,
        forall|i: int|
            0 <= i < r@.len() ==> (#[trigger] r@[i]).1 as nat == bucket_count(
                starts@,
                r@[i].0 as int,
                bucket_width_ns(*tb),
            ) && r@[i].1 > 0,
        forall|k: int|
            0 <= k < starts@.len() ==> bucket_covered(
                r@,
                epoch_bucket(#[trigger] starts@[k], bucket_width_ns(*tb)),
            ),
{
    let ghost w = bucket_width_ns(*tb);
    let mut r: Vec<(u64, usize)> = Vec::new();
    proof {
        assert(starts@.take(0) =~= Seq::<u64>::empty());
    }
    let mut k: usize = 0;
    while k < starts.len()
        invariant
            w == bucket_width_ns(*tb),
            k <= starts@.len(),
            forall|i: int, j: int|
                0 <= i < j < r@.len() ==> (#[trigger] r@[i]).0 != (#[trigger] r@[j]).0,
            forall|i: int|
                0 <= i < r@.len() ==> (#[trigger] r@[i]).1 as nat == bucket_count(
                    starts@.take(k as int),
                    r@[i].0 as int,
                    w,
                ) && r@[i].1 > 0,
            forall|k2: int|
                0 <= k2 < k ==> bucket_covered(r@, epoch_bucket(#[trigger] starts@[k2], w)),
        decreases starts@.len() - k,
    {
        let b = epoch_bucket_of(starts[k], tb);
        let ghost x = starts@[k as int];
        let ghost prefix = starts@.take(k as int);
        proof {
            assert(starts@.take(k + 1) =~= prefix.push(x));
        }
        let mut j: usize = 0;
        let mut found: bool = false;
        while j < r.len() && !found
            invariant
                j <= r@.len(),
                !found ==> forall|j2: int| 0 <= j2 < j ==> (#[trigger] r@[j2]).0 != b,
                found ==> j < r@.len() && r@[j as int].0 == b,
            decreases r@.len() - j + (if found {
                0int
            } else {
                1int
            }),
        {
            if r[j].0 == b {
                found = true;
            } else {
                j = j + 1;
            }
        }
        if found {
            proof {
                prefix.lemma_filter_len(bucket_pred(b as int, w));
            }
            let c = r[j].1;
            let ghost pre = r@;
            r[j] = (b, c + 1);
            proof {
                assert forall|i: int|
                    0 <= i < r@.len() implies (#[trigger] r@[i]).1 as nat == bucket_count(
                        starts@.take(k + 1),
                        r@[i].0 as int,
                        w,
                    ) && r@[i].1 > 0 by {
                    prefix.lemma_filter_len_push(bucket_pred(r@[i].0 as int, w), x);
                    if i != j {
                        assert(r@[i] == pre[i]);
                        assert(!bucket_pred(r@[i].0 as int, w)(x));
                    } else {
                        assert(bucket_pred(r@[i].0 as int, w)(x));
                    }
                }
                assert forall|k2: int| 0 <= k2 < k + 1 implies bucket_covered(
                    r@,
                    epoch_bucket(#[trigger] starts@[k2], w),
                ) by {
                    if k2 < k {
                        let i0 = choose|i: int|
                            0 <= i < pre.len() && (#[trigger] pre[i]).0 == epoch_bucket(
                                starts@[k2],
                                w,
                            );
                        assert(r@[i0].0 == epoch_bucket(starts@[k2], w));
                    } else {
                        assert(r@[j as int].0 == epoch_bucket(starts@[k2], w));
                    }
                }
            }
        } else {
            let ghost pre = r@;
            r.push((b, 1));
            proof {
                assert forall|k2: int| 0 <= k2 < prefix.len() implies epoch_bucket(
                    #[trigger] prefix[k2],
                    w,
                ) != b as int by {
                    assert(bucket_covered(pre, epoch_bucket(prefix[k2], w)));
                    let i0 = choose|i: int|
                        0 <= i < pre.len() && (#[trigger] pre[i]).0 == epoch_bucket(prefix[k2], w);
                }
                lemma_bucket_count_zero(prefix, b as int, w);
                assert forall|i: int|
                    0 <= i < r@.len() implies (#[trigger] r@[i]).1 as nat == bucket_count(
                        starts@.take(k + 1),
                        r@[i].0 as int,
                        w,
                    ) && r@[i].1 > 0 by {
                    prefix.lemma_filter_len_push(bucket_pred(r@[i].0 as int, w), x);
                    if i < pre.len() {
                        assert(r@[i] == pre[i]);
                        assert(!bucket_pred(r@[i].0 as int, w)(x));
                    } else {
                        assert(bucket_pred(r@[i].0 as int, w)(x));
                    }
                }
                assert forall|k2: int| 0 <= k2 < k + 1 implies bucket_covered(
                    r@,
                    epoch_bucket(#[trigger] starts@[k2], w),
                ) by {
                    if k2 < k {
                        assert(bucket_covered(pre, epoch_bucket(starts@[k2], w)));
                        let i0 = choose|i: int|
                            0 <= i < pre.len() && (#[trigger] pre[i]).0 == epoch_bucket(
                                starts@[k2],
                                w,
                            );
                        assert(r@[i0].0 == epoch_bucket(starts@[k2], w));
                    } else {
                        assert(r@[r@.len() - 1].0 == epoch_bucket(starts@[k2], w));
                    }
                }
            }
        }
        k = k + 1;
    }
    proof {
        assert(starts@.take(starts@.len() as int) =~= starts@);
    }
    r
}

} // verus!

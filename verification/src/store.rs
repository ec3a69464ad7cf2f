//! A verified reference model of the stored tables' conflict
//! policies.
//!
//! The writer's statements commit their rows under three different
//! rules: trace rows widen on an id conflict, span rows are
//! create-once, attribute rows are last-write-wins. This module
//! models each table as rows applied batch by batch under exactly
//! that rule, states the result as a map from key to value, and
//! proves the ingestion laws those rules promise: re-ingesting a span
//! changes nothing, re-ingesting an attribute takes the newest value,
//! and trace widening does not depend on the order batches arrive in.

use vstd::prelude::*;

use crate::flatten::{WriteableSpan, WriteableSpanAttribute, WriteableTrace};

verus! {

/// The stored aggregate of one trace: start, end, duration, span
/// count.
pub type TraceAgg = (u64, u64, Option<i64>, nat);

/// The stored aggregate a trace row carries.
pub open spec fn tval(t: WriteableTrace) -> TraceAgg {
    (t.start_time, t.end_time, t.duration_ns, t.span_count as nat)
}

/// The duration the widened bounds give: `end - start` where it fits
/// a signed 64-bit count, nothing where it does not.
pub open spec fn dur_of(start: u64, end: u64) -> Option<i64> {
    if end - start > i64::MAX || end - start < i64::MIN {
        None
    } else {
        Some((end - start) as i64)
    }
}

/// Widening two aggregates of one trace: the lower start, the higher
/// end, the duration those bounds give, and the accumulated count.
pub open spec fn merge_tv(a: TraceAgg, b: TraceAgg) -> TraceAgg {
    let start: u64 = if a.0 < b.0 {
        a.0
    } else {
        b.0
    };
    let end: u64 = if a.1 > b.1 {
        a.1
    } else {
        b.1
    };
    (start, end, dur_of(start, end), a.3 + b.3)
}

/// The trace table as a map from trace id to stored aggregate.
pub open spec fn trace_map(rows: Seq<WriteableTrace>) -> Map<Seq<char>, TraceAgg>
    decreases rows.len(),
{
    if rows.len() == 0 {
        Map::empty()
    } else {
        trace_map(rows.drop_last()).insert(rows.last().trace_id@, tval(rows.last()))
    }
}

/// The trace table after one upsert batch: every id of either side,
/// widened where both sides carry it.
pub open spec fn trace_union(
    m: Map<Seq<char>, TraceAgg>,
    b: Map<Seq<char>, TraceAgg>,
) -> Map<Seq<char>, TraceAgg> {
    Map::new(
        |k: Seq<char>| m.dom().contains(k) || b.dom().contains(k),
        |k: Seq<char>|
            if m.dom().contains(k) && b.dom().contains(k) {
                merge_tv(m[k], b[k])
            } else if m.dom().contains(k) {
                m[k]
            } else {
                b[k]
            },
    )
}

/// Whether a trace row set carries each id at most once.
pub open spec fn distinct_trace_ids(rows: Seq<WriteableTrace>) -> bool {
    forall|i: int, j: int|
        0 <= i < j < rows.len() ==> (#[trigger] rows[i]).trace_id@ != (
        #[trigger] rows[j]).trace_id@
}

/// With distinct ids, the trace map carries exactly the rows.
proof fn lemma_trace_map_props(rows: Seq<WriteableTrace>)
    requires
        distinct_trace_ids(rows),
    ensures
        forall|i: int|
            0 <= i < rows.len() ==> trace_map(rows).dom().contains(
                (#[trigger] rows[i]).trace_id@,
            ) && trace_map(rows)[rows[i].trace_id@] == tval(rows[i]),
        forall|k: Seq<char>|
            trace_map(rows).dom().contains(k) ==> exists|i: int|
                0 <= i < rows.len() && (#[trigger] rows[i]).trace_id@ == k,
    decreases rows.len(),
{
    if rows.len() > 0 {
        lemma_trace_map_props(rows.drop_last());
        assert forall|i: int|
            0 <= i < rows.len() implies trace_map(rows).dom().contains(
                (#[trigger] rows[i]).trace_id@,
            ) && trace_map(rows)[rows[i].trace_id@] == tval(rows[i]) by {
            if i < rows.len() - 1 {
                assert(rows.drop_last()[i] == rows[i]);
                assert(rows[i].trace_id@ != rows.last().trace_id@);
            }
        }
        assert forall|k: Seq<char>| trace_map(rows).dom().contains(k) implies exists|i: int|
            0 <= i < rows.len() && (#[trigger] rows[i]).trace_id@ == k by {
            if k != rows.last().trace_id@ {
                assert(trace_map(rows.drop_last()).dom().contains(k));
                let i0 = choose|i: int|
                    0 <= i < rows.drop_last().len() && (#[trigger] rows.drop_last()[i]).trace_id@
                        == k;
                assert(rows.drop_last()[i0] == rows[i0]);
                assert(rows[i0].trace_id@ == k);
            } else {
                assert(rows[rows.len() - 1].trace_id@ == k);
            }
        }
    }
}

/// Replacing one row by another of the same id rewrites that id's
/// entry and nothing else.
proof fn lemma_trace_map_update(rows: Seq<WriteableTrace>, j: int, r: WriteableTrace)
    requires
        distinct_trace_ids(rows),
        0 <= j < rows.len(),
        r.trace_id@ == rows[j].trace_id@,
    ensures
        trace_map(rows.update(j, r)) =~= trace_map(rows).insert(r.trace_id@, tval(r)),
    decreases rows.len(),
{
    let rows2 = rows.update(j, r);
    if j == rows.len() - 1 {
        assert(rows2.drop_last() =~= rows.drop_last());
        assert(rows2.last() == r);
    } else {
        assert(rows2.drop_last() =~= rows.drop_last().update(j, r));
        assert(rows2.last() == rows.last());
        lemma_trace_map_update(rows.drop_last(), j, r);
        assert(rows.last().trace_id@ != r.trace_id@);
    }
}

/// Applies one batch of trace aggregate rows to the stored trace
/// table under the widening upsert rule: a new id inserts its row, a
/// known id widens the stored bounds, re-derives the duration, and
/// accumulates the span count.
#[verifier::loop_isolation(false)]
#[verifier::rlimit(100)]
#[verifier::spinoff_prover]
pub fn apply_trace_rows(store: &mut Vec<WriteableTrace>, batch: &Vec<WriteableTrace>)
    requires
        distinct_trace_ids(old(store)@),
        distinct_trace_ids(batch@),
        forall|i: int, j: int|
            0 <= i < old(store)@.len() && 0 <= j < batch@.len() && (
            #[trigger] old(store)@[i]).trace_id@ == (#[trigger] batch@[j]).trace_id@ ==> old(
                store,
            )@[i].span_count + batch@[j].span_count <= usize::MAX,
    ensures
        distinct_trace_ids(final(store)@),
        trace_map(final(store)@) =~= trace_union(trace_map(old(store)@), trace_map(batch@)),
{
    let ghost m0 = trace_map(old(store)@);
    proof {
        assert(batch@.take(0) =~= Seq::<WriteableTrace>::empty());
        assert(trace_map(old(store)@) =~= trace_union(m0, trace_map(batch@.take(0))));
        lemma_trace_map_props(old(store)@);
    }
    let mut k: usize = 0;
    while k < batch.len()
        invariant
            k <= batch@.len(),
            distinct_trace_ids(store@),
            trace_map(store@) =~= trace_union(m0, trace_map(batch@.take(k as int))),
            forall|i: int, j: int|
                0 <= i < store@.len() && k <= j < batch@.len() && (#[trigger] store@[i]).trace_id@
                    == (#[trigger] batch@[j]).trace_id@ ==> store@[i].span_count
                    + batch@[j].span_count <= usize::MAX,
        decreases batch@.len() - k,
    {
        let ghost x = batch@[k as int];
        let ghost bm = trace_map(batch@.take(k as int));
        proof {
            assert(batch@.take(k + 1).drop_last() =~= batch@.take(k as int));
            assert(batch@.take(k + 1).last() == x);
            lemma_trace_map_props(store@);
            assert forall|j2: int| 0 <= j2 < k implies (#[trigger] batch@[j2]).trace_id@
                != x.trace_id@ by {}
            assert(!bm.dom().contains(x.trace_id@)) by {
                if bm.dom().contains(x.trace_id@) {
                    lemma_trace_map_props(batch@.take(k as int));
                    let i0 = choose|i: int|
                        0 <= i < batch@.take(k as int).len() && (#[trigger] batch@.take(
                            k as int,
                        )[i]).trace_id@ == x.trace_id@;
                    assert(batch@[i0].trace_id@ == x.trace_id@);
                }
            }
        }
        let mut j: usize = 0;
        let mut found: bool = false;
        while j < store.len() && !found
            invariant
                j <= store@.len(),
                !found ==> forall|j2: int|
                    0 <= j2 < j ==> (#[trigger] store@[j2]).trace_id@ != x.trace_id@,
                found ==> j < store@.len() && store@[j as int].trace_id@ == x.trace_id@,
            decreases store@.len() - j + (if found {
                0int
            } else {
                1int
            }),
        {
            if store[j].trace_id == batch[k].trace_id {
                found = true;
            } else {
                j = j + 1;
            }
        }
        if found {
            let new_start = if batch[k].start_time < store[j].start_time {
                batch[k].start_time
            } else {
                store[j].start_time
            };
            let new_end = if batch[k].end_time > store[j].end_time {
                batch[k].end_time
            } else {
                store[j].end_time
            };
            let new_duration = crate::flatten::trace_duration_opt(new_start, new_end);
            let new_count = store[j].span_count + batch[k].span_count;
            let tid = store[j].trace_id.clone();
            let updated = WriteableTrace {
                trace_id: tid,
                start_time: new_start,
                end_time: new_end,
                duration_ns: new_duration,
                span_count: new_count,
            };
            let ghost pre = store@;
            store[j] = updated;
            proof {
                lemma_trace_map_update(pre, j as int, store@[j as int]);
                assert(trace_map(pre).dom().contains(x.trace_id@));
                assert(trace_map(pre)[x.trace_id@] == tval(pre[j as int]));
                assert(m0.dom().contains(x.trace_id@));
                assert(tval(store@[j as int]) == merge_tv(m0[x.trace_id@], tval(x)));
                assert(trace_map(store@) =~= trace_union(m0, bm.insert(x.trace_id@, tval(x))));
                assert(trace_map(batch@.take(k + 1)) =~= bm.insert(x.trace_id@, tval(x)));
            }
        } else {
            let row = WriteableTrace {
                trace_id: batch[k].trace_id.clone(),
                start_time: batch[k].start_time,
                end_time: batch[k].end_time,
                duration_ns: batch[k].duration_ns,
                span_count: batch[k].span_count,
            };
            let ghost pre = store@;
            store.push(row);
            proof {
                assert(store@.drop_last() =~= pre);
                assert(tval(store@.last()) == tval(x));
                assert(!m0.dom().contains(x.trace_id@)) by {
                    if m0.dom().contains(x.trace_id@) {
                        lemma_trace_map_props(pre);
                        assert(trace_map(pre).dom().contains(x.trace_id@));
                        let i0 = choose|i: int|
                            0 <= i < pre.len() && (#[trigger] pre[i]).trace_id@ == x.trace_id@;
                    }
                }
                assert(trace_map(store@) =~= trace_union(m0, bm.insert(x.trace_id@, tval(x))));
                assert(trace_map(batch@.take(k + 1)) =~= bm.insert(x.trace_id@, tval(x)));
            }
        }
        k = k + 1;
    }
    proof {
        assert(batch@.take(batch@.len() as int) =~= batch@);
    }
}

/// Law: widening upserts commute batch for batch — two batches
/// applied in either order leave the same trace table, with pointwise
/// lowest start, highest end, and summed span count. Concurrent
/// ingestions of one trace id may therefore serialize in any order.
pub proof fn lemma_trace_upsert_order_independent(
    m: Map<Seq<char>, TraceAgg>,
    a: Map<Seq<char>, TraceAgg>,
    b: Map<Seq<char>, TraceAgg>,
)
    ensures
        trace_union(trace_union(m, a), b) =~= trace_union(trace_union(m, b), a),
{
    assert forall|k: Seq<char>|
        trace_union(trace_union(m, a), b).dom().contains(k) implies trace_union(
        trace_union(m, a),
        b,
    )[k] == trace_union(trace_union(m, b), a)[k] by {}
}

/// The span table as a map from span id to its first-written row.
pub open spec fn span_map(rows: Seq<WriteableSpan>) -> Map<Seq<char>, WriteableSpan>
    decreases rows.len(),
{
    if rows.len() == 0 {
        Map::empty()
    } else {
        let m = span_map(rows.drop_last());
        if m.dom().contains(rows.last().span_id@) {
            m
        } else {
            m.insert(rows.last().span_id@, rows.last())
        }
    }
}

/// The span table after one insert batch: spans are create-once, so
/// an id already stored keeps its stored row.
pub open spec fn span_union(
    m: Map<Seq<char>, WriteableSpan>,
    b: Map<Seq<char>, WriteableSpan>,
) -> Map<Seq<char>, WriteableSpan> {
    Map::new(
        |k: Seq<char>| m.dom().contains(k) || b.dom().contains(k),
        |k: Seq<char>|
            if m.dom().contains(k) {
                m[k]
            } else {
                b[k]
            },
    )
}

proof fn lemma_span_map_contains(rows: Seq<WriteableSpan>, k: Seq<char>)
    ensures
        span_map(rows).dom().contains(k) <==> exists|i: int|
            0 <= i < rows.len() && (#[trigger] rows[i]).span_id@ == k,
    decreases rows.len(),
{
    if rows.len() > 0 {
        lemma_span_map_contains(rows.drop_last(), k);
        if span_map(rows).dom().contains(k) {
            if k == rows.last().span_id@ {
                assert(rows[rows.len() - 1].span_id@ == k);
            } else {
                let i0 = choose|i: int|
                    0 <= i < rows.drop_last().len() && (#[trigger] rows.drop_last()[i]).span_id@
                        == k;
                assert(rows[i0].span_id@ == k);
            }
        }
        if exists|i: int| 0 <= i < rows.len() && (#[trigger] rows[i]).span_id@ == k {
            let i0 = choose|i: int| 0 <= i < rows.len() && (#[trigger] rows[i]).span_id@ == k;
            if i0 < rows.len() - 1 {
                assert(rows.drop_last()[i0].span_id@ == k);
            }
        }
    }
}

fn clone_opt_str(o: &Option<String>) -> (r: Option<String>)
    ensures
        r == *o,
{
    match o {
        Some(s) => Some(s.clone()),
        None => None,
    }
}

fn clone_span_row(s: &WriteableSpan) -> (r: WriteableSpan)
    ensures
        r == *s,
{
    WriteableSpan {
        span_id: s.span_id.clone(),
        trace_id: s.trace_id.clone(),
        parent_span_id: clone_opt_str(&s.parent_span_id),
        operation_name: s.operation_name.clone(),
        start_time: s.start_time,
        end_time: s.end_time,
        duration_ns: s.duration_ns,
        status_code: s.status_code,
        status_message: clone_opt_str(&s.status_message),
        span_kind: s.span_kind,
        instrumentation_library: clone_opt_str(&s.instrumentation_library),
        service_name: clone_opt_str(&s.service_name),
    }
}

/// Applies one batch of span rows to the stored span table under the
/// create-once rule: a new id inserts its row, a known id changes
/// nothing — span identity is immutable once written.
#[verifier::loop_isolation(false)]
#[verifier::spinoff_prover]
pub fn apply_span_rows(store: &mut Vec<WriteableSpan>, batch: &Vec<WriteableSpan>)
    ensures
        span_map(final(store)@) =~= span_union(span_map(old(store)@), span_map(batch@)),
{
    let ghost m0 = span_map(old(store)@);
    proof {
        assert(batch@.take(0) =~= Seq::<WriteableSpan>::empty());
        assert(span_map(old(store)@) =~= span_union(m0, span_map(batch@.take(0))));
    }
    let mut k: usize = 0;
    while k < batch.len()
        invariant
            k <= batch@.len(),
            span_map(store@) =~= span_union(m0, span_map(batch@.take(k as int))),
        decreases batch@.len() - k,
    {
        let ghost x = batch@[k as int];
        let ghost bm = span_map(batch@.take(k as int));
        proof {
            assert(batch@.take(k + 1).drop_last() =~= batch@.take(k as int));
            assert(batch@.take(k + 1).last() == x);
        }
        let mut j: usize = 0;
        let mut found: bool = false;
        while j < store.len() && !found
            invariant
                j <= store@.len(),
                !found ==> forall|j2: int|
                    0 <= j2 < j ==> (#[trigger] store@[j2]).span_id@ != x.span_id@,
                found ==> j < store@.len() && store@[j as int].span_id@ == x.span_id@,
            decreases store@.len() - j + (if found {
                0int
            } else {
                1int
            }),
        {
            if store[j].span_id == batch[k].span_id {
                found = true;
            } else {
                j = j + 1;
            }
        }
        proof {
            lemma_span_map_contains(store@, x.span_id@);
        }
        if found {
            proof {
                assert(span_map(store@).dom().contains(x.span_id@));
                if bm.dom().contains(x.span_id@) {
                    assert(span_map(batch@.take(k + 1)) =~= bm);
                } else {
                    assert(span_map(batch@.take(k + 1)) =~= bm.insert(x.span_id@, x));
                }
                assert(span_map(store@) =~= span_union(m0, span_map(batch@.take(k + 1))));
            }
        } else {
            let ghost pre = store@;
            if k < batch.len() {
                let row = clone_span_row(&batch[k]);
                store.push(row);
            }
            proof {
                assert(store@.drop_last() =~= pre);
                assert(store@.last() == x);
                assert(!span_map(pre).dom().contains(x.span_id@));
                assert(span_map(store@) =~= span_map(pre).insert(x.span_id@, x));
                if bm.dom().contains(x.span_id@) {
                    lemma_span_map_contains(batch@.take(k as int), x.span_id@);
                    let i0 = choose|i: int|
                        0 <= i < batch@.take(k as int).len() && (#[trigger] batch@.take(
                            k as int,
                        )[i]).span_id@ == x.span_id@;
                    assert(span_union(m0, bm).dom().contains(x.span_id@));
                    assert(span_map(pre).dom().contains(x.span_id@));
                    assert(false);
                }
                assert(span_map(batch@.take(k + 1)) =~= bm.insert(x.span_id@, x));
                assert(span_map(store@) =~= span_union(m0, span_map(batch@.take(k + 1))));
            }
        }
        k = k + 1;
    }
    proof {
        assert(batch@.take(batch@.len() as int) =~= batch@);
    }
}

/// Law: spans are create-once. Whatever a later batch carries for a
/// span id that is already stored — identical or different fields —
/// applying it leaves that span's stored row exactly as it first
/// stood.
pub proof fn lemma_span_reingest_first_wins(
    m: Map<Seq<char>, WriteableSpan>,
    b: Map<Seq<char>, WriteableSpan>,
    k: Seq<char>,
)
    requires
        m.dom().contains(k),
    ensures
        span_union(m, b).dom().contains(k),
        span_union(m, b)[k] == m[k],
{
}

/// The attribute table as a map from (owner id, key) to the
/// last-written value.
pub open spec fn attr_map(rows: Seq<WriteableSpanAttribute>) -> Map<
    (Seq<char>, Seq<char>),
    Seq<char>,
>
    decreases rows.len(),
{
    if rows.len() == 0 {
        Map::empty()
    } else {
        attr_map(rows.drop_last()).insert(
            (rows.last().span_id@, rows.last().key@),
            rows.last().value@,
        )
    }
}

/// The attribute table after one upsert batch: the batch's value wins
/// on every key it carries.
pub open spec fn attr_union(
    m: Map<(Seq<char>, Seq<char>), Seq<char>>,
    b: Map<(Seq<char>, Seq<char>), Seq<char>>,
) -> Map<(Seq<char>, Seq<char>), Seq<char>> {
    Map::new(
        |k: (Seq<char>, Seq<char>)| m.dom().contains(k) || b.dom().contains(k),
        |k: (Seq<char>, Seq<char>)|
            if b.dom().contains(k) {
                b[k]
            } else {
                m[k]
            },
    )
}

/// Whether an attribute row set carries each (owner, key) pair at
/// most once.
pub open spec fn distinct_attr_keys(rows: Seq<WriteableSpanAttribute>) -> bool {
    forall|i: int, j: int|
        0 <= i < j < rows.len() ==> ((#[trigger] rows[i]).span_id@, rows[i].key@) != ((
        #[trigger] rows[j]).span_id@, rows[j].key@)
}

/// With distinct keys, the attribute map carries exactly the rows.
proof fn lemma_attr_map_props(rows: Seq<WriteableSpanAttribute>)
    requires
        distinct_attr_keys(rows),
    ensures
        forall|i: int|
            0 <= i < rows.len() ==> attr_map(rows).dom().contains(
                ((#[trigger] rows[i]).span_id@, rows[i].key@),
            ) && attr_map(rows)[(rows[i].span_id@, rows[i].key@)] == rows[i].value@,
        forall|k: (Seq<char>, Seq<char>)|
            attr_map(rows).dom().contains(k) ==> exists|i: int|
                0 <= i < rows.len() && ((#[trigger] rows[i]).span_id@, rows[i].key@) == k,
    decreases rows.len(),
{
    if rows.len() > 0 {
        lemma_attr_map_props(rows.drop_last());
        assert forall|i: int|
            0 <= i < rows.len() implies attr_map(rows).dom().contains(
                ((#[trigger] rows[i]).span_id@, rows[i].key@),
            ) && attr_map(rows)[(rows[i].span_id@, rows[i].key@)] == rows[i].value@ by {
            if i < rows.len() - 1 {
                assert(rows.drop_last()[i] == rows[i]);
                assert(((rows[i].span_id@, rows[i].key@)) != ((
                rows.last().span_id@,
                rows.last().key@,
                )));
            }
        }
        assert forall|k: (Seq<char>, Seq<char>)| attr_map(rows).dom().contains(k) implies exists|
            i: int,
        |
            0 <= i < rows.len() && ((#[trigger] rows[i]).span_id@, rows[i].key@) == k by {
            if k != (rows.last().span_id@, rows.last().key@) {
                assert(attr_map(rows.drop_last()).dom().contains(k));
                let i0 = choose|i: int|
                    0 <= i < rows.drop_last().len() && ((#[trigger] rows.drop_last()[i]).span_id@,
                    rows.drop_last()[i].key@) == k;
                assert(rows.drop_last()[i0] == rows[i0]);
                assert((rows[i0].span_id@, rows[i0].key@) == k);
            } else {
                assert((rows[rows.len() - 1].span_id@, rows[rows.len() - 1].key@) == k);
            }
        }
    }
}

/// Replacing one attribute row by another of the same key rewrites
/// that key's value and nothing else.
proof fn lemma_attr_map_update(
    rows: Seq<WriteableSpanAttribute>,
    j: int,
    r: WriteableSpanAttribute,
)
    requires
        distinct_attr_keys(rows),
        0 <= j < rows.len(),
        r.span_id@ == rows[j].span_id@,
        r.key@ == rows[j].key@,
    ensures
        attr_map(rows.update(j, r)) =~= attr_map(rows).insert((r.span_id@, r.key@), r.value@),
    decreases rows.len(),
{
    let rows2 = rows.update(j, r);
    if j == rows.len() - 1 {
        assert(rows2.drop_last() =~= rows.drop_last());
        assert(rows2.last() == r);
    } else {
        assert(rows2.drop_last() =~= rows.drop_last().update(j, r));
        assert(rows2.last() == rows.last());
        lemma_attr_map_update(rows.drop_last(), j, r);
        assert((rows.last().span_id@, rows.last().key@) != (r.span_id@, r.key@));
    }
}

/// Applies one batch of attribute rows to the stored attribute table
/// under the last-write-wins rule: a new key inserts its row, a known
/// key overwrites the stored value.
#[verifier::loop_isolation(false)]
#[verifier::rlimit(100)]
#[verifier::spinoff_prover]
pub fn apply_span_attribute_rows(
    store: &mut Vec<WriteableSpanAttribute>,
    batch: &Vec<WriteableSpanAttribute>,
)
    requires
        distinct_attr_keys(old(store)@),
        distinct_attr_keys(batch@),
    ensures
        distinct_attr_keys(final(store)@),
        attr_map(final(store)@) =~= attr_union(attr_map(old(store)@), attr_map(batch@)),
{
    let ghost m0 = attr_map(old(store)@);
    proof {
        assert(batch@.take(0) =~= Seq::<WriteableSpanAttribute>::empty());
        assert(attr_map(old(store)@) =~= attr_union(m0, attr_map(batch@.take(0))));
    }
    let mut k: usize = 0;
    while k < batch.len()
        invariant
            k <= batch@.len(),
            distinct_attr_keys(store@),
            attr_map(store@) =~= attr_union(m0, attr_map(batch@.take(k as int))),
        decreases batch@.len() - k,
    {
        let ghost x = batch@[k as int];
        let ghost bm = attr_map(batch@.take(k as int));
        proof {
            assert(batch@.take(k + 1).drop_last() =~= batch@.take(k as int));
            assert(batch@.take(k + 1).last() == x);
            assert(!bm.dom().contains((x.span_id@, x.key@))) by {
                if bm.dom().contains((x.span_id@, x.key@)) {
                    lemma_attr_map_props(batch@.take(k as int));
                    let i0 = choose|i: int|
                        0 <= i < batch@.take(k as int).len() && ((#[trigger] batch@.take(
                            k as int,
                        )[i]).span_id@, batch@.take(k as int)[i].key@) == (x.span_id@, x.key@);
                    assert((batch@[i0].span_id@, batch@[i0].key@) == (x.span_id@, x.key@));
                }
            }
            lemma_attr_map_props(store@);
        }
        let mut j: usize = 0;
        let mut found: bool = false;
        while j < store.len() && !found
            invariant
                j <= store@.len(),
                !found ==> forall|j2: int|
                    0 <= j2 < j ==> ((#[trigger] store@[j2]).span_id@, store@[j2].key@) != (
                    x.span_id@,
                    x.key@,
                ),
                found ==> j < store@.len() && store@[j as int].span_id@ == x.span_id@
                    && store@[j as int].key@ == x.key@,
            decreases store@.len() - j + (if found {
                0int
            } else {
                1int
            }),
        {
            if store[j].span_id == batch[k].span_id && store[j].key == batch[k].key {
                found = true;
            } else {
                j = j + 1;
            }
        }
        if found {
            let updated = WriteableSpanAttribute {
                span_id: store[j].span_id.clone(),
                key: store[j].key.clone(),
                value: batch[k].value.clone(),
            };
            let ghost pre = store@;
            store[j] = updated;
            proof {
                lemma_attr_map_update(pre, j as int, store@[j as int]);
                assert(attr_map(store@) =~= attr_union(
                    m0,
                    bm.insert((x.span_id@, x.key@), x.value@),
                ));
                assert(attr_map(batch@.take(k + 1)) =~= bm.insert(
                    (x.span_id@, x.key@),
                    x.value@,
                ));
            }
        } else {
            let row = WriteableSpanAttribute {
                span_id: batch[k].span_id.clone(),
                key: batch[k].key.clone(),
                value: batch[k].value.clone(),
            };
            let ghost pre = store@;
            store.push(row);
            proof {
                assert(store@.drop_last() =~= pre);
                assert((store@.last().span_id@, store@.last().key@) == (x.span_id@, x.key@));
                assert(store@.last().value@ == x.value@);
                assert(!m0.dom().contains((x.span_id@, x.key@))) by {
                    if m0.dom().contains((x.span_id@, x.key@)) {
                        assert(attr_union(m0, bm).dom().contains((x.span_id@, x.key@)));
                        assert(attr_map(pre).dom().contains((x.span_id@, x.key@)));
                        lemma_attr_map_props(pre);
                        let i0 = choose|i: int|
                            0 <= i < pre.len() && ((#[trigger] pre[i]).span_id@, pre[i].key@) == (
                            x.span_id@,
                            x.key@,
                            );
                        assert(false);
                    }
                }
                assert(attr_map(store@) =~= attr_union(
                    m0,
                    bm.insert((x.span_id@, x.key@), x.value@),
                ));
                assert(attr_map(batch@.take(k + 1)) =~= bm.insert(
                    (x.span_id@, x.key@),
                    x.value@,
                ));
            }
        }
        k = k + 1;
    }
    proof {
        assert(batch@.take(batch@.len() as int) =~= batch@);
    }
}

/// Law: attributes are last-write-wins. For every key a later batch
/// carries, the stored value after applying it is that batch's value,
/// whatever stood there before.
pub proof fn lemma_attr_reingest_last_wins(
    m: Map<(Seq<char>, Seq<char>), Seq<char>>,
    b: Map<(Seq<char>, Seq<char>), Seq<char>>,
    k: (Seq<char>, Seq<char>),
)
    requires
        b.dom().contains(k),
    ensures
        attr_union(m, b).dom().contains(k),
        attr_union(m, b)[k] == b[k],
{
}

} // verus!

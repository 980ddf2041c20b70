//! The timeline: the edges of a window, on request the samples underneath, and
//! how much of the window the store can cover.

use vstd::prelude::*;

use crate::models::timeline::{
    newest_first_cut, Bounded, JobTransition, Timeline, TimelinePoint, TimelineQuery, Transition, Window,
};
use crate::models::{ApiState, GhView, RunnerSample};
use crate::store::reader::github::{clip64, elapsed, held, reading_time_is_within, readings_held};
use crate::store::reader::{least_ts, min_ts_where};
use crate::store::rows::{at, first_of, order, order_rows, select, select_is_exact, select_rows};
use crate::store::tables::{ApiSample, Db};
use crate::text::{text_at_or_before, text_le};
use crate::util::{rfc3339, to_rfc3339_utc};

pub mod edges;
pub mod laws;

use edges::{
    admits, change_rows, github_edges, job_changes, job_edges, job_stream,
    liveness_edges, liveness_stream, newest_come_first, online_stream, passes, reconcile_edges, reconcile_stream, streams_come_newest_first, Change,
};

verus! {

// ---------------------------------------------------------------------------
// The union of the streams
// ---------------------------------------------------------------------------

/// `s`, newest first, with `x` behind the last change that is not older.
pub open spec fn placed(s: Seq<Change>, x: Change) -> Seq<Change>
    decreases s.len(),
{
    if s.len() == 0 || s.last().ts >= x.ts {
        s.push(x)
    } else {
        placed(s.drop_last(), x).push(s.last())
    }
}

/// Changes, newest first; those of one time keep their order.
pub open spec fn newest_first(s: Seq<Change>) -> Seq<Change>
    decreases s.len(),
{
    if s.len() == 0 {
        s
    } else {
        placed(newest_first(s.drop_last()), s.last())
    }
}

/// How many changes are at or behind time `t`.
spec fn at_or_after(s: Seq<Change>, t: i64) -> int
    decreases s.len(),
{
    if s.len() == 0 {
        0
    } else {
        at_or_after(s.drop_last(), t) + if s.last().ts >= t {
            1int
        } else {
            0
        }
    }
}

proof fn at_or_after_bound(s: Seq<Change>, t: i64)
    ensures
        0 <= at_or_after(s, t) <= s.len(),
    decreases s.len(),
{
    if s.len() > 0 {
        at_or_after_bound(s.drop_last(), t);
    }
}

/// In a descending series those at or behind `t` come first.
proof fn at_or_after_is_a_prefix(s: Seq<Change>, t: i64, k: int)
    requires
        newest_come_first(s),
        0 <= k < s.len(),
    ensures
        k < at_or_after(s, t) <==> s[k].ts >= t,
    decreases s.len(),
{
    let init = s.drop_last();
    at_or_after_bound(init, t);
    assert(newest_come_first(init)) by {
        assert forall|i: int, j: int| 0 <= i < j < init.len() implies #[trigger] init[i].ts
            >= #[trigger] init[j].ts by {
            assert(s[i].ts >= s[j].ts);
        }
    }
    if k < init.len() {
        at_or_after_is_a_prefix(init, t, k);
        assert(init[k] == s[k]);
        if s.last().ts >= t {
            assert(s[k].ts >= s[s.len() - 1].ts);
        }
    } else if s.last().ts >= t {
        // Everything before the last is at or behind it.
        if init.len() > 0 {
            at_or_after_is_a_prefix(init, t, init.len() - 1);
            assert(s[init.len() - 1].ts >= s[s.len() - 1].ts);
        }
    }
}

proof fn placed_position(s: Seq<Change>, x: Change)
    requires
        newest_come_first(s),
    ensures
        placed(s, x) == s.insert(at_or_after(s, x.ts), x),
        newest_come_first(placed(s, x)),
    decreases s.len(),
{
    at_or_after_bound(s, x.ts);
    if s.len() == 0 {
        assert(placed(s, x) =~= s.insert(0, x));
    } else {
        let init = s.drop_last();
        assert(newest_come_first(init)) by {
            assert forall|i: int, j: int| 0 <= i < j < init.len() implies #[trigger] init[i].ts
                >= #[trigger] init[j].ts by {
                assert(s[i].ts >= s[j].ts);
            }
        }
        at_or_after_bound(init, x.ts);
        at_or_after_is_a_prefix(s, x.ts, s.len() - 1);
        if s.last().ts >= x.ts {
            assert(at_or_after(s, x.ts) == s.len());
            assert(placed(s, x) =~= s.insert(s.len() as int, x));
        } else {
            placed_position(init, x);
            assert(at_or_after(s, x.ts) == at_or_after(init, x.ts));
            assert(s.insert(at_or_after(s, x.ts), x) =~= init.insert(
                at_or_after(init, x.ts),
                x,
            ).push(s.last()));
        }
        let r = placed(s, x);
        let p = at_or_after(s, x.ts);
        assert(r =~= s.insert(p, x));
        assert forall|i: int, j: int| 0 <= i < j < r.len() implies #[trigger] r[i].ts
            >= #[trigger] r[j].ts by {
            if i < p {
                at_or_after_is_a_prefix(s, x.ts, i);
            }
            if j > p {
                at_or_after_is_a_prefix(s, x.ts, j - 1);
            }
            let a = if i < p {
                i
            } else {
                i - 1
            };
            let b = if j < p {
                j
            } else {
                j - 1
            };
            if i != p && j != p {
                assert(s[a].ts >= s[b].ts);
            }
        }
    }
}

proof fn newest_first_descends(s: Seq<Change>)
    ensures
        newest_come_first(newest_first(s)),
        newest_first(s).len() == s.len(),
    decreases s.len(),
{
    if s.len() > 0 {
        newest_first_descends(s.drop_last());
        placed_position(newest_first(s.drop_last()), s.last());
        at_or_after_bound(newest_first(s.drop_last()), s.last().ts);
    }
}

proof fn newest_first_counts(s: Seq<Change>, t: i64)
    ensures
        at_or_after(newest_first(s), t) == at_or_after(s, t),
    decreases s.len(),
{
    if s.len() > 0 {
        let init = s.drop_last();
        newest_first_counts(init, t);
        newest_first_descends(init);
        placed_counts(newest_first(init), s.last(), t);
    }
}

proof fn placed_counts(s: Seq<Change>, x: Change, t: i64)
    ensures
        at_or_after(placed(s, x), t) == at_or_after(s, t) + if x.ts >= t {
            1int
        } else {
            0
        },
    decreases s.len(),
{
    let r = placed(s, x);
    if s.len() == 0 || s.last().ts >= x.ts {
        assert(r.drop_last() =~= s);
    } else {
        placed_counts(s.drop_last(), x, t);
        assert(r.drop_last() =~= placed(s.drop_last(), x));
    }
}

/// Two series agree on their first `n` changes.
spec fn agree(a: Seq<Change>, b: Seq<Change>, n: nat) -> bool {
    first_of(a, n) == first_of(b, n)
}

proof fn agree_is_pointwise(a: Seq<Change>, b: Seq<Change>, n: nat)
    ensures
        agree(a, b, n) <==> {
            &&& a.len() < n ==> a.len() == b.len()
            &&& b.len() < n ==> a.len() == b.len()
            &&& forall|k: int| 0 <= k < n && k < a.len() && k < b.len() ==> a[k] == b[k]
        },
{
    let x = first_of(a, n);
    let y = first_of(b, n);
    if agree(a, b, n) {
        assert(x.len() == y.len());
        assert forall|k: int| 0 <= k < n && k < a.len() && k < b.len() implies a[k] == b[k] by {
            assert(x[k] == a[k]);
            assert(y[k] == b[k]);
        }
    }
    if {
        &&& a.len() < n ==> a.len() == b.len()
        &&& b.len() < n ==> a.len() == b.len()
        &&& forall|k: int| 0 <= k < n && k < a.len() && k < b.len() ==> a[k] == b[k]
    } {
        assert(x =~= y);
    }
}

/// Placing the same change keeps two series in agreement.
proof fn placed_keeps_agreement(a: Seq<Change>, b: Seq<Change>, x: Change, n: nat)
    requires
        newest_come_first(a),
        newest_come_first(b),
        agree(a, b, n),
    ensures
        agree(placed(a, x), placed(b, x), n),
{
    agree_is_pointwise(a, b, n);
    placed_position(a, x);
    placed_position(b, x);
    let p = at_or_after(a, x.ts);
    let q = at_or_after(b, x.ts);
    at_or_after_bound(a, x.ts);
    at_or_after_bound(b, x.ts);
    let ra = placed(a, x);
    let rb = placed(b, x);
    // The two positions are the same, or both lie behind the first n.
    if p < n || q < n {
        if p < q {
            if p < a.len() {
                at_or_after_is_a_prefix(a, x.ts, p);
                at_or_after_is_a_prefix(b, x.ts, p);
                assert(p < n);
                assert(a[p] == b[p]);
            }
        }
        if q < p {
            if q < b.len() {
                at_or_after_is_a_prefix(a, x.ts, q);
                at_or_after_is_a_prefix(b, x.ts, q);
                assert(a[q] == b[q]);
            }
        }
        assert(p == q);
    }
    assert forall|k: int| 0 <= k < n && k < ra.len() && k < rb.len() implies ra[k] == rb[k] by {
        if p < n || q < n {
            if k > p {
                assert(ra[k] == a[k - 1] && rb[k] == b[k - 1]);
            }
        }
    }
    agree_is_pointwise(ra, rb, n);
}

/// Placing a change behind `n` that are not older changes none of the first `n`.
proof fn late_placement_is_unseen(s: Seq<Change>, x: Change, n: nat)
    requires
        newest_come_first(s),
        at_or_after(s, x.ts) >= n,
    ensures
        agree(placed(s, x), s, n),
{
    placed_position(s, x);
    at_or_after_bound(s, x.ts);
    agree_is_pointwise(placed(s, x), s, n);
}

proof fn at_or_after_of_concat(a: Seq<Change>, b: Seq<Change>, t: i64)
    ensures
        at_or_after(a + b, t) == at_or_after(a, t) + at_or_after(b, t),
    decreases b.len(),
{
    if b.len() == 0 {
        assert(a + b =~= a);
    } else {
        at_or_after_of_concat(a, b.drop_last(), t);
        assert((a + b).drop_last() =~= a + b.drop_last());
        assert((a + b).last() == b.last());
    }
}

proof fn descending_prefix_counts(b: Seq<Change>, t: i64)
    requires
        forall|k: int| 0 <= k < b.len() ==> #[trigger] b[k].ts >= t,
    ensures
        at_or_after(b, t) == b.len(),
    decreases b.len(),
{
    if b.len() > 0 {
        descending_prefix_counts(b.drop_last(), t);
        assert(b[b.len() - 1].ts >= t);
    }
}

/// Reading on a descending stream beyond its first `p` changes alters none of the
/// first `n` of the union, where `p` is at least `n`.
proof fn stream_tail_is_unseen(head: Seq<Change>, b: Seq<Change>, p: nat, n: nat, m: int)
    requires
        newest_come_first(b),
        n <= p,
        0 <= m <= b.len(),
    ensures
        agree(newest_first(head + b.take(m)), newest_first(head + first_of(b.take(m), p)), n),
    decreases m,
{
    if m <= p {
        assert(first_of(b.take(m), p) =~= b.take(m));
    } else {
        stream_tail_is_unseen(head, b, p, n, m - 1);
        let x = b[m - 1];
        let before = head + b.take(m - 1);
        let after = head + b.take(m);
        assert(after.drop_last() =~= before);
        assert(after.last() == x);
        assert(first_of(b.take(m), p) =~= first_of(b.take(m - 1), p)) by {
            assert(m - 1 >= p);
            if m - 1 == p {
                assert(b.take(m).take(p as int) =~= b.take(m - 1));
            } else {
                assert(b.take(m).take(p as int) =~= b.take(m - 1).take(p as int));
            }
        }
        let s = newest_first(before);
        newest_first_descends(before);
        newest_first_counts(before, x.ts);
        at_or_after_of_concat(head, b.take(m - 1), x.ts);
        at_or_after_bound(head, x.ts);
        assert forall|k: int| 0 <= k < b.take(m - 1).len() implies #[trigger] b.take(m - 1)[k].ts
            >= x.ts by {
            assert(b[k].ts >= b[m - 1].ts);
        }
        descending_prefix_counts(b.take(m - 1), x.ts);
        late_placement_is_unseen(s, x, n);
    }
}

/// Appending the same changes keeps two unions in agreement.
proof fn appending_keeps_agreement(a: Seq<Change>, b: Seq<Change>, more: Seq<Change>, n: nat)
    requires
        agree(newest_first(a), newest_first(b), n),
    ensures
        agree(newest_first(a + more), newest_first(b + more), n),
    decreases more.len(),
{
    if more.len() == 0 {
        assert(a + more =~= a);
        assert(b + more =~= b);
    } else {
        let init = more.drop_last();
        appending_keeps_agreement(a, b, init, n);
        assert((a + more).drop_last() =~= a + init);
        assert((b + more).drop_last() =~= b + init);
        newest_first_descends(a + init);
        newest_first_descends(b + init);
        placed_keeps_agreement(newest_first(a + init), newest_first(b + init), more.last(), n);
    }
}

/// Bounding each stream on its own loses nothing of the bounded union: the first
/// `n` changes of the three whole streams are the first `n` of what is left when
/// each is cut to `p >= n`.
pub proof fn bounded_streams_suffice(
    a: Seq<Change>,
    b: Seq<Change>,
    c: Seq<Change>,
    p: nat,
    n: nat,
)
    requires
        newest_come_first(a),
        newest_come_first(b),
        newest_come_first(c),
        n <= p,
    ensures
        first_of(newest_first(a + b + c), n) == first_of(
            newest_first(first_of(a, p) + first_of(b, p) + first_of(c, p)),
            n,
        ),
{
    let e = Seq::<Change>::empty();
    let ca = first_of(a, p);
    let cb = first_of(b, p);
    let cc = first_of(c, p);
    assert(a.take(a.len() as int) =~= a && b.take(b.len() as int) =~= b && c.take(c.len() as int)
        =~= c);
    stream_tail_is_unseen(e, a, p, n, a.len() as int);
    assert(e + a =~= a && e + ca =~= ca);
    appending_keeps_agreement(a, ca, b, n);
    stream_tail_is_unseen(ca, b, p, n, b.len() as int);
    appending_keeps_agreement(a + b, ca + b, c, n);
    appending_keeps_agreement(ca + b, ca + cb, c, n);
    stream_tail_is_unseen(ca + cb, c, p, n, c.len() as int);
}

/// Order transitions newest first; those of one time keep their order.
fn sort_newest_first(rows: Vec<Transition>) -> (r: Vec<Transition>)
    ensures
        change_rows(r@) == newest_first(change_rows(rows@)),
{
    let ghost all = change_rows(rows@);
    let ghost src = rows@;
    let mut out: Vec<Transition> = Vec::new();
    assert(all.take(0) =~= seq![]);
    assert(change_rows(out@) =~= newest_first(all.take(0)));
    for t in it: rows
        invariant
            it.seq() == src,
            all == change_rows(src),
            change_rows(out@) == newest_first(all.take(it.index() as int)),
    {
        let ghost i = it.index() as int;
        let ghost was = change_rows(out@);
        let ghost view = t@;
        proof {
            assert(all.take(i + 1).drop_last() =~= all.take(i));
            assert(all.take(i + 1).last() == view);
            newest_first_descends(all.take(i));
            placed_position(was, view);
            at_or_after_bound(was, view.ts);
        }
        let mut p: usize = out.len();
        while p > 0 && out[p - 1].ts < t.ts
            invariant
                p <= out@.len(),
                change_rows(out@) == was,
                forall|k: int| p <= k < was.len() ==> #[trigger] was[k].ts < t.ts,
            decreases p,
        {
            assert(was[p - 1].ts == out@[p - 1].ts);
            p = p - 1;
        }
        proof {
            let q = at_or_after(was, view.ts);
            if p > 0 {
                assert(was[p - 1].ts == out@[p - 1].ts);
                at_or_after_is_a_prefix(was, view.ts, p - 1);
            }
            if p < was.len() {
                at_or_after_is_a_prefix(was, view.ts, p as int);
                assert(was[p as int].ts < t.ts);
            }
            assert(p == q);
        }
        out.insert(p, t);
        assert(change_rows(out@) =~= was.insert(p as int, view));
    }
    assert(all.take(all.len() as int) =~= all);
    out
}

// ---------------------------------------------------------------------------
// The samples
// ---------------------------------------------------------------------------

/// Samples, newest first; those of one tick by name.
pub open spec fn samples_newest_first(rows: Seq<RunnerSample>) -> spec_fn(int, int) -> bool {
    |i: int, j: int|
        rows[i].ts > rows[j].ts || rows[i].ts == rows[j].ts && text_le(rows[i].name@, rows[j].name@)
}

/// A sample with GitHub's view of it.
pub open spec fn sample_point(r: RunnerSample, github: GhView) -> TimelinePoint {
    TimelinePoint { ts: r.ts, org: r.org, runner: r.name, liveness: r.liveness, github }
}

/// The readings that a sample is joined with: the newest at or before its tick.
pub open spec fn readings_of(api: Seq<ApiSample>, r: RunnerSample) -> Seq<int> {
    held(api, r.org@, r.agent_id, i64::MIN as int, r.ts as int)
}

/// GitHub's view as of a sample's tick: the reading's age is taken at the tick.
pub open spec fn view_at(api: Seq<ApiSample>, r: RunnerSample, j: int, max_age: u64) -> GhView {
    GhView::adjudged(
        ApiState { online: api[j].online, busy: api[j].busy },
        clip64(r.ts - api[j].ts),
        max_age,
    )
}

/// The points of one sample: one per joined reading, or one that knows nothing.
pub open spec fn sample_points(api: Seq<ApiSample>, r: RunnerSample, max_age: u64) -> Seq<
    TimelinePoint,
> {
    let hits = readings_of(api, r);
    if hits.len() == 0 {
        seq![sample_point(r, GhView::Unknown)]
    } else {
        hits.map_values(|j: int| sample_point(r, view_at(api, r, j, max_age)))
    }
}

/// The points of the samples at the positions `idx`.
pub open spec fn points_of(
    rows: Seq<RunnerSample>,
    api: Seq<ApiSample>,
    idx: Seq<int>,
    max_age: u64,
) -> Seq<TimelinePoint>
    decreases idx.len(),
{
    if idx.len() == 0 {
        seq![]
    } else {
        points_of(rows, api, idx.drop_last(), max_age) + sample_points(
            api,
            rows[idx.last()],
            max_age,
        )
    }
}

/// Every sample of the window with GitHub's view of it, newest first.
pub open spec fn sample_stream(
    rows: Seq<RunnerSample>,
    api: Seq<ApiSample>,
    q: TimelineQuery,
    max_age: u64,
) -> Seq<TimelinePoint> {
    points_of(
        rows,
        api,
        order(samples_newest_first(rows), select(edges::local_window(rows, q), rows.len() as int)),
        max_age,
    )
}

/// A timeline never answers with evidence that did not exist yet: a reading that
/// a sample is joined with is not newer than the sample.
pub proof fn samples_borrow_nothing_from_the_future(api: Seq<ApiSample>, r: RunnerSample, k: int)
    requires
        0 <= k < readings_of(api, r).len(),
    ensures
        0 <= readings_of(api, r)[k] < api.len(),
        api[readings_of(api, r)[k]].ts <= r.ts,
        api[readings_of(api, r)[k]].org@ == r.org@,
        api[readings_of(api, r)[k]].agent_id == r.agent_id,
{
    let n = api.len() as int;
    reading_time_is_within(api, r.org@, r.agent_id, i64::MIN as int, r.ts as int, n);
    let t = crate::store::reader::github::reading_time(
        api,
        r.org@,
        r.agent_id,
        i64::MIN as int,
        r.ts as int,
        n,
    );
    let p = crate::store::reader::github::of_runner_at(api, r.org@, r.agent_id, t->0);
    select_is_exact(p, n);
    assert(p(select(p, n)[k]));
}

fn push_points(out: &mut Vec<TimelinePoint>, api: &Vec<ApiSample>, r: &RunnerSample, max_age: u64)
    ensures
        final(out)@ == old(out)@ + sample_points(api@, *r, max_age),
{
    let hits = readings_held(api, &r.org, r.agent_id, i64::MIN as i128, r.ts);
    assert(at(hits@).len() == hits@.len());
    if hits.len() == 0 {
        out.push(
            TimelinePoint {
                ts: r.ts,
                org: r.org.clone(),
                runner: r.name.clone(),
                liveness: r.liveness,
                github: GhView::Unknown,
            },
        );
        assert(out@ =~= old(out)@ + sample_points(api@, *r, max_age));
    } else {
        let ghost all = sample_points(api@, *r, max_age);
        let mut k: usize = 0;
        assert(out@ + all.take(0) =~= out@);
        while k < hits.len()
            invariant
                k <= hits@.len(),
                at(hits@) == readings_of(api@, *r),
                all == at(hits@).map_values(
                    |j: int| sample_point(*r, view_at(api@, *r, j, max_age)),
                ),
                forall|m: int| 0 <= m < hits@.len() ==> #[trigger] hits@[m] < api@.len(),
                out@ == old(out)@ + all.take(k as int),
            decreases hits@.len() - k,
        {
            let s = &api[hits[k]];
            out.push(
                TimelinePoint {
                    ts: r.ts,
                    org: r.org.clone(),
                    runner: r.name.clone(),
                    liveness: r.liveness,
                    github: GhView::observed(
                        ApiState { online: s.online, busy: s.busy },
                        elapsed(r.ts, s.ts),
                        max_age,
                    ),
                },
            );
            assert(at(hits@)[k as int] == hits@[k as int] as int);
            assert(out@ =~= old(out)@ + all.take(k + 1));
            k = k + 1;
        }
        assert(all.take(k as int) =~= all);
    }
}

proof fn points_grow(
    rows: Seq<RunnerSample>,
    api: Seq<ApiSample>,
    idx: Seq<int>,
    max_age: u64,
    k: int,
)
    requires
        0 <= k <= idx.len(),
    ensures
        points_of(rows, api, idx.take(k), max_age).is_prefix_of(
            points_of(rows, api, idx, max_age),
        ),
    decreases idx.len() - k,
{
    if k == idx.len() {
        assert(idx.take(k) =~= idx);
    } else {
        points_grow(rows, api, idx, max_age, k + 1);
        assert(idx.take(k + 1).drop_last() =~= idx.take(k));
        let a = points_of(rows, api, idx.take(k), max_age);
        let b = points_of(rows, api, idx.take(k + 1), max_age);
        let c = points_of(rows, api, idx, max_age);
        assert(a =~= b.subrange(0, a.len() as int));
        assert(b =~= c.subrange(0, b.len() as int));
        assert(a =~= c.subrange(0, a.len() as int)) by {
            assert forall|i: int| 0 <= i < a.len() implies a[i] == c[i] by {
                assert(b[i] == b.subrange(0, a.len() as int)[i]);
                assert(b[i] == c.subrange(0, b.len() as int)[i]);
            }
        }
    }
}

/// Raw samples of the window, newest first, at most `limit`.
fn timeline_samples(db: &Db, q: &TimelineQuery, limit: usize, max_age: u64) -> (r: Vec<
    TimelinePoint,
>)
    ensures
        r@ == first_of(
            sample_stream(db.runner_samples@, db.api_samples@, *q, max_age),
            limit as nat,
        ),
{
    let rows = &db.runner_samples;
    let api = &db.api_samples;
    let hit = |i: usize| -> (b: bool)
        requires
            i < rows@.len(),
        ensures
            b == (rows@[i as int].ts >= q.since_ts && admits(q.org, rows@[i as int].org@) && admits(
                q.runner,
                rows@[i as int].name@,
            )),
    {
        rows[i].ts >= q.since_ts && passes(&q.org, &rows[i].org) && passes(&q.runner, &rows[i].name)
    };
    let window = select_rows(rows.len(), hit, Ghost(edges::local_window(rows@, *q)));
    let before = |i: usize, j: usize| -> (b: bool)
        requires
            i < rows@.len(),
            j < rows@.len(),
        ensures
            b == (rows@[i as int].ts > rows@[j as int].ts || rows@[i as int].ts
                == rows@[j as int].ts && text_le(rows@[i as int].name@, rows@[j as int].name@)),
    {
        rows[i].ts > rows[j].ts || (rows[i].ts == rows[j].ts && text_at_or_before(
            rows[i].name.as_str(),
            rows[j].name.as_str(),
        ))
    };
    let ord = order_rows(&window, rows.len(), before, Ghost(samples_newest_first(rows@)));
    let ghost idx = at(ord@);
    let mut out: Vec<TimelinePoint> = Vec::new();
    let mut k: usize = 0;
    assert(idx.take(0) =~= seq![]);
    while k < ord.len() && out.len() < limit
        invariant
            k <= ord@.len(),
            idx == at(ord@),
            forall|m: int| 0 <= m < ord@.len() ==> #[trigger] ord@[m] < rows@.len(),
            out@ == points_of(rows@, api@, idx.take(k as int), max_age),
        decreases ord@.len() - k,
    {
        push_points(&mut out, api, &rows[ord[k]], max_age);
        assert(idx.take(k + 1).drop_last() =~= idx.take(k as int));
        assert(idx.take(k + 1).last() == ord@[k as int] as int);
        k = k + 1;
    }
    let ghost whole = points_of(rows@, api@, idx, max_age);
    proof {
        points_grow(rows@, api@, idx, max_age, k as int);
        if k == ord@.len() {
            assert(idx.take(k as int) =~= idx);
        }
    }
    let ghost made = out@;
    out.truncate(limit);
    proof {
        assert(made =~= whole.subrange(0, made.len() as int));
        assert forall|i: int| 0 <= i < made.len() implies made[i] == whole[i] by {
            assert(made[i] == whole.subrange(0, made.len() as int)[i]);
        }
        assert(out@ =~= first_of(whole, limit as nat));
    }
    out
}

// ---------------------------------------------------------------------------
// The answer
// ---------------------------------------------------------------------------

/// The filters alone, over runner samples.
pub open spec fn local_filter(rows: Seq<RunnerSample>, q: TimelineQuery) -> spec_fn(int) -> bool {
    |i: int| admits(q.org, rows[i].org@) && admits(q.runner, rows[i].name@)
}

/// The oldest sample still held under the filters.
fn earliest_sample(db: &Db, q: &TimelineQuery) -> (r: Option<i64>)
    ensures
        r == min_ts_where(
            db.runner_samples@,
            local_filter(db.runner_samples@, *q),
            db.runner_samples@.len() as int,
        ),
{
    let rows = &db.runner_samples;
    let hit = |i: usize| -> (b: bool)
        requires
            i < rows@.len(),
        ensures
            b == (admits(q.org, rows@[i as int].org@) && admits(q.runner, rows@[i as int].name@)),
    {
        passes(&q.org, &rows[i].org) && passes(&q.runner, &rows[i].name)
    };
    least_ts(rows, hit, Ghost(local_filter(rows@, *q)))
}

/// Where the store's samples start, when that is inside the window.
pub open spec fn floor_inside(first: Option<i64>, since_ts: i64) -> Option<i64> {
    match first {
        Some(t) => if t > since_ts {
            Some(t)
        } else {
            None
        },
        None => None,
    }
}

/// Every edge of the window, newest first: liveness, then online, then reconcile
/// edges where they share a time.
pub open spec fn edge_stream(db: Db, q: TimelineQuery) -> Seq<Change> {
    newest_first(
        liveness_stream(db.runner_samples@, q) + online_stream(db.api_samples@, q)
            + reconcile_stream(db.reconcile_samples@, db.runner_samples@, q),
    )
}

proof fn cut_of_first<T>(s: Seq<T>, p: nat, n: nat)
    requires
        n <= p,
    ensures
        newest_first_cut(first_of(s, p), n) == newest_first_cut(s, n),
{
    if s.len() > p {
        if n < p {
            assert(s.take(p as int).take(n as int) =~= s.take(n as int));
        } else {
            assert(s.take(p as int) =~= s.take(n as int));
            assert(first_of(s, p) =~= s.take(n as int));
        }
    }
}

proof fn cut_depends_on_first<T>(a: Seq<T>, b: Seq<T>, n: nat)
    requires
        first_of(a, n) == first_of(b, n),
    ensures
        newest_first_cut(a, n) == newest_first_cut(b, n),
{
    assert(newest_first_cut(a, n) =~= first_of(a, n).reverse());
    assert(newest_first_cut(b, n) =~= first_of(b, n).reverse());
}

/// The bounded edges of the window.
fn bounded_edges(db: &Db, q: &TimelineQuery) -> (r: Bounded<Transition>)
    ensures
        change_rows(r.items@) == newest_first_cut(edge_stream(*db, *q), q.limit as nat),
        r.limited == (edge_stream(*db, *q).len() > q.limit),
{
    let probe: usize = q.limit.saturating_add(1);
    let mut rows = liveness_edges(db, q, probe);
    let mut online = github_edges(db, q, probe);
    let mut outcomes = reconcile_edges(db, q, probe);
    let ghost a = liveness_stream(db.runner_samples@, *q);
    let ghost b = online_stream(db.api_samples@, *q);
    let ghost c = reconcile_stream(db.reconcile_samples@, db.runner_samples@, *q);
    let ghost ca = change_rows(rows@);
    let ghost cb = change_rows(online@);
    let ghost cc = change_rows(outcomes@);
    proof {
        assert(ca.len() == rows@.len() && cb.len() == online@.len() && cc.len() == outcomes@.len());
    }
    rows.append(&mut online);
    rows.append(&mut outcomes);
    assert(change_rows(rows@) =~= ca + cb + cc);
    let sorted = sort_newest_first(rows);
    let ghost union = change_rows(sorted@);
    assert(union.len() == sorted@.len());
    let r = Bounded::newest(sorted, q.limit);
    proof {
        union_is_bounded(*db, *q, probe as nat);
        newest_first_descends(a + b + c);
        newest_first_descends(ca + cb + cc);
        assert(change_rows(r.items@) =~= newest_first_cut(union, q.limit as nat));
    }
    r
}

proof fn union_is_bounded(db: Db, q: TimelineQuery, p: nat)
    requires
        q.limit <= p,
    ensures
        ({
            let a = liveness_stream(db.runner_samples@, q);
            let b = online_stream(db.api_samples@, q);
            let c = reconcile_stream(db.reconcile_samples@, db.runner_samples@, q);
            newest_first_cut(edge_stream(db, q), q.limit as nat) == newest_first_cut(
                newest_first(first_of(a, p) + first_of(b, p) + first_of(c, p)),
                q.limit as nat,
            )
        }),
{
    let a = liveness_stream(db.runner_samples@, q);
    let b = online_stream(db.api_samples@, q);
    let c = reconcile_stream(db.reconcile_samples@, db.runner_samples@, q);
    streams_come_newest_first(db.runner_samples@, db.api_samples@, db.reconcile_samples@, q);
    bounded_streams_suffice(a, b, c, p, q.limit as nat);
    cut_depends_on_first(
        newest_first(a + b + c),
        newest_first(first_of(a, p) + first_of(b, p) + first_of(c, p)),
        q.limit as nat,
    );
}

/// The bounded starts and completions of jobs.
fn bounded_jobs(db: &Db, q: &TimelineQuery) -> (r: Bounded<JobTransition>)
    ensures
        job_changes(r.items@) == newest_first_cut(job_stream(db.jobs@, *q), q.limit as nat),
        r.limited == (job_stream(db.jobs@, *q).len() > q.limit),
{
    let probe: usize = q.limit.saturating_add(1);
    let rows = job_edges(db, q, probe);
    let ghost js = job_changes(rows@);
    assert(js.len() == rows@.len());
    let r = Bounded::newest(rows, q.limit);
    proof {
        cut_of_first(job_stream(db.jobs@, *q), probe as nat, q.limit as nat);
        assert(job_changes(r.items@) =~= newest_first_cut(js, q.limit as nat));
    }
    r
}

/// The bounded samples of the window.
fn bounded_samples(db: &Db, q: &TimelineQuery, max_age: u64) -> (r: Bounded<TimelinePoint>)
    ensures
        ({
            let stream = sample_stream(db.runner_samples@, db.api_samples@, *q, max_age);
            &&& r.items@ == newest_first_cut(stream, q.limit as nat)
            &&& r.limited == (q.limit < usize::MAX && stream.len() > q.limit)
        }),
{
    let probe: usize = q.limit.saturating_add(1);
    let points = timeline_samples(db, q, probe, max_age);
    proof {
        cut_of_first(
            sample_stream(db.runner_samples@, db.api_samples@, *q, max_age),
            probe as nat,
            q.limit as nat,
        );
    }
    Bounded::newest(points, q.limit)
}

/// Answer a timeline query: the edges of the window, the starts and completions
/// of jobs, the samples where asked for, and where the store's samples start.
/// Each collection holds the newest `q.limit`, oldest first, and says whether it
/// was cut.
pub fn timeline(db: &Db, q: &TimelineQuery, now: i64, max_age: u64) -> (r: Timeline)
    ensures
        answers(r, *db, *q, now, max_age),
{
    let samples = if q.samples {
        Some(bounded_samples(db, q, max_age))
    } else {
        None
    };
    let truncated_at: Option<i64> = match earliest_sample(db, q) {
        Some(first) => if first > q.since_ts {
            Some(first)
        } else {
            None
        },
        None => None,
    };
    Timeline {
        schema_version: 1,
        generated_at: to_rfc3339_utc(now),
        generated_at_epoch: now,
        window: Window {
            since: to_rfc3339_utc(q.since_ts),
            since_epoch: q.since_ts,
            until_epoch: now,
            truncated_at,
        },
        transitions: bounded_edges(db, q),
        jobs: bounded_jobs(db, q),
        samples,
    }
}

/// What the answer to a timeline query holds.
pub open spec fn answers(r: Timeline, db: Db, q: TimelineQuery, now: i64, max_age: u64) -> bool {
    &&& r.schema_version == 1
    &&& r.generated_at@ == rfc3339(now as int)
    &&& r.generated_at_epoch == now
    &&& r.window.since@ == rfc3339(q.since_ts as int)
    &&& r.window.since_epoch == q.since_ts
    &&& r.window.until_epoch == now
    &&& r.window.truncated_at == floor_inside(
        min_ts_where(
            db.runner_samples@,
            local_filter(db.runner_samples@, q),
            db.runner_samples@.len() as int,
        ),
        q.since_ts,
    )
    &&& change_rows(r.transitions.items@) == newest_first_cut(edge_stream(db, q), q.limit as nat)
    &&& r.transitions.limited == (edge_stream(db, q).len() > q.limit)
    &&& job_changes(r.jobs.items@) == newest_first_cut(job_stream(db.jobs@, q), q.limit as nat)
    &&& r.jobs.limited == (job_stream(db.jobs@, q).len() > q.limit)
    &&& r.samples is Some <==> q.samples
    &&& r.samples matches Some(s) ==> {
        let stream = sample_stream(db.runner_samples@, db.api_samples@, q, max_age);
        &&& s.items@ == newest_first_cut(stream, q.limit as nat)
        &&& s.limited == (q.limit < usize::MAX && stream.len() > q.limit)
    }
}

} // verus!

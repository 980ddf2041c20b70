//! The tailer of the runners' event logs.

use vstd::prelude::*;

use crate::store::rows::{find_row, first_where, first_where_is_least, first_where_unique};
use crate::text::{owned, same};

verus! {

/// Seconds between two looks at the logs.
pub const TAIL_PERIOD_SECS: u64 = 2;

/// How far a log was read.
#[derive(Debug)]
pub struct TailOffset {
    pub stream: String,
    pub offset: u64,
}

/// How far each log was read. A log that is not listed was not read yet.
#[derive(Debug)]
pub struct Offsets {
    pub rows: Vec<TailOffset>,
}

/// The rows of a log.
pub open spec fn of_log(rows: Seq<TailOffset>, stream: Seq<char>) -> spec_fn(int) -> bool {
    |i: int| rows[i].stream@ == stream
}

/// How far a log was read.
pub open spec fn read_to(rows: Seq<TailOffset>, stream: Seq<char>) -> u64 {
    let k = first_where(of_log(rows, stream), rows.len() as int);
    if k < rows.len() {
        rows[k].offset
    } else {
        0
    }
}

impl Offsets {
    /// Start from what was persisted.
    pub fn resume(persisted: &[(String, u64)]) -> (r: Offsets)
        ensures
            r.rows@.len() == persisted@.len(),
            forall|k: int|
                0 <= k < r.rows@.len() ==> (#[trigger] r.rows@[k]).stream@ == persisted@[k].0@
                    && r.rows@[k].offset == persisted@[k].1,
    {
        let mut rows: Vec<TailOffset> = Vec::new();
        let mut i: usize = 0;
        while i < persisted.len()
            invariant
                i <= persisted@.len(),
                rows@.len() == i,
                forall|k: int|
                    0 <= k < i ==> (#[trigger] rows@[k]).stream@ == persisted@[k].0@
                        && rows@[k].offset == persisted@[k].1,
            decreases persisted@.len() - i,
        {
            let p = &persisted[i];
            rows.push(TailOffset { stream: owned(p.0.as_str()), offset: p.1 });
            i = i + 1;
        }
        Offsets { rows }
    }

    /// Where to go on in a log: at its start where it was not read yet.
    pub fn get(&self, stream: &str) -> (r: u64)
        ensures
            r == read_to(self.rows@, stream@),
    {
        let rows = &self.rows;
        let hit = |i: usize| -> (b: bool)
            requires
                i < rows@.len(),
            ensures
                b == (rows@[i as int].stream@ == stream@),
        {
            same(rows[i].stream.as_str(), stream)
        };
        let k = find_row(rows.len(), hit, Ghost(of_log(rows@, stream@)));
        if k < rows.len() {
            rows[k].offset
        } else {
            0
        }
    }

    /// Note how far a log was read; what is known of other logs stays.
    pub fn insert(&mut self, stream: &str, offset: u64)
        ensures
            forall|s: Seq<char>| #[trigger]
                read_to(final(self).rows@, s) == if s == stream@ {
                    offset
                } else {
                    read_to(old(self).rows@, s)
                },
    {
        let ghost before = self.rows@;
        let mut k: usize = 0;
        while k < self.rows.len() && !same(self.rows[k].stream.as_str(), stream)
            invariant
                k <= self.rows@.len(),
                self.rows@ == before,
                forall|m: int| 0 <= m < k ==> (#[trigger] before[m]).stream@ != stream@,
            ensures
                k <= self.rows@.len(),
                self.rows@ == before,
                forall|m: int| 0 <= m < k ==> (#[trigger] before[m]).stream@ != stream@,
                k < self.rows@.len() ==> before[k as int].stream@ == stream@,
            decreases self.rows@.len() - k,
        {
            k = k + 1;
        }
        if k < self.rows.len() {
            self.rows.set(k, TailOffset { stream: owned(stream), offset });
        } else {
            self.rows.push(TailOffset { stream: owned(stream), offset });
        }
        proof {
            let now = self.rows@;
            assert forall|s: Seq<char>| #[trigger] read_to(now, s) == if s == stream@ {
                offset
            } else {
                read_to(before, s)
            } by {
                first_where_is_least(of_log(before, s), before.len() as int);
                let f = first_where(of_log(before, s), before.len() as int);
                if s == stream@ {
                    assert forall|m: int| 0 <= m < k implies !#[trigger] of_log(now, s)(m) by {
                        assert(before[m].stream@ != stream@);
                    }
                    first_where_unique(of_log(now, s), now.len() as int, k as int);
                } else {
                    assert forall|m: int| 0 <= m < f implies !#[trigger] of_log(now, s)(m) by {
                        assert(!of_log(before, s)(m));
                    }
                    if f < before.len() {
                        assert(of_log(before, s)(f));
                        first_where_unique(of_log(now, s), now.len() as int, f);
                    } else {
                        assert(!of_log(now, s)(k as int));
                        assert forall|m: int| 0 <= m < now.len() implies !#[trigger] of_log(
                            now,
                            s,
                        )(m) by {
                            if m < before.len() {
                                assert(!of_log(before, s)(m));
                            }
                        }
                        first_where_unique(of_log(now, s), now.len() as int, now.len() as int);
                    }
                }
            }
        }
    }
}

/// Whether what was read of a log goes to the writer: where there are events, or
/// the place to go on from moved.
pub fn forwards(events: usize, offset: u64, new_offset: u64) -> (r: bool)
    ensures
        r <==> events > 0 || new_offset != offset,
{
    events > 0 || new_offset != offset
}

} // verus!

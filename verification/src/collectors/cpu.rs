//! Processor use from a cumulative counter.
//!
//! A rate exists only relative to an earlier observation, so a tracker remembers
//! the last one of each runner. It is keyed by the install directory, which is
//! unique on a host; GitHub's numeric id is unique only within an org. A directory
//! is known by its components, however its path is spelled.

use vstd::prelude::*;

use crate::path::{components, same_path};
use crate::text::owned;

verus! {

/// The last observation of one counter.
#[derive(Debug)]
pub struct Usage {
    /// The path of the directory that it belongs to.
    pub id: String,
    pub usec: u64,
    /// When it was read: nanoseconds of a clock that does not go back.
    pub at: u64,
}

/// By how much a counter moved, and over what time. The use in percent is
/// `usec / 1e6 / (nanos / 1e9) * 100`; it may exceed 100 on several cores.
#[derive(Debug, Clone, Copy, PartialEq, Eq)]
pub struct CpuDelta {
    pub usec: u64,
    pub nanos: u64,
}

/// The last observation of each counter.
pub struct CpuRateTracker {
    pub prev: Vec<Usage>,
}

/// What an observation is filed under.
pub open spec fn key_of(u: Usage) -> Seq<Seq<char>> {
    components(u.id@)
}

/// The observations by the components of their paths: of two entries of one path
/// the later counts.
pub open spec fn observed(rows: Seq<Usage>) -> Map<Seq<Seq<char>>, (u64, u64)>
    decreases rows.len(),
{
    if rows.len() == 0 {
        Map::empty()
    } else {
        observed(rows.drop_last()).insert(key_of(rows.last()), (rows.last().usec, rows.last().at))
    }
}

/// No path occurs twice.
pub open spec fn distinct(rows: Seq<Usage>) -> bool {
    forall|i: int, j: int|
        0 <= i < j < rows.len() ==> key_of(#[trigger] rows[i]) != key_of(#[trigger] rows[j])
}

impl View for CpuRateTracker {
    type V = Map<Seq<Seq<char>>, (u64, u64)>;

    open spec fn view(&self) -> Map<Seq<Seq<char>>, (u64, u64)> {
        observed(self.prev@)
    }
}

/// What an observation says against the one before it.
pub open spec fn delta(before: Option<(u64, u64)>, usec: Option<u64>, at: u64) -> Option<CpuDelta> {
    match (before, usec) {
        (Some(b), Some(cur)) => if at > b.1 && cur >= b.0 {
            Some(CpuDelta { usec: (cur - b.0) as u64, nanos: (at - b.1) as u64 })
        } else {
            None
        },
        _ => None,
    }
}

/// The observation of a path, where there is one.
pub open spec fn known(m: Map<Seq<Seq<char>>, (u64, u64)>, id: Seq<Seq<char>>) -> Option<
    (u64, u64),
> {
    if m.dom().contains(id) {
        Some(m[id])
    } else {
        None
    }
}

/// The observations after one more.
pub open spec fn noted(
    m: Map<Seq<Seq<char>>, (u64, u64)>,
    id: Seq<Seq<char>>,
    usec: Option<u64>,
    at: u64,
) -> Map<Seq<Seq<char>>, (u64, u64)> {
    match usec {
        Some(cur) => m.insert(id, (cur, at)),
        None => m.remove(id),
    }
}

proof fn absent(rows: Seq<Usage>, id: Seq<Seq<char>>)
    requires
        forall|k: int| 0 <= k < rows.len() ==> key_of(#[trigger] rows[k]) != id,
    ensures
        !observed(rows).dom().contains(id),
    decreases rows.len(),
{
    if rows.len() > 0 {
        assert forall|k: int| 0 <= k < rows.drop_last().len() implies key_of(
            #[trigger] rows.drop_last()[k],
        ) != id by {
            assert(key_of(rows[k]) != id);
        }
        absent(rows.drop_last(), id);
        assert(key_of(rows[rows.len() - 1]) != id);
    }
}

proof fn distinct_init(rows: Seq<Usage>)
    requires
        distinct(rows),
        rows.len() > 0,
    ensures
        distinct(rows.drop_last()),
        forall|k: int|
            0 <= k < rows.len() - 1 ==> key_of(#[trigger] rows.drop_last()[k]) != key_of(
                rows.last(),
            ),
{
    let init = rows.drop_last();
    assert forall|i: int, j: int| 0 <= i < j < init.len() implies key_of(#[trigger] init[i])
        != key_of(#[trigger] init[j]) by {
        assert(key_of(rows[i]) != key_of(rows[j]));
    }
    assert forall|k: int| 0 <= k < rows.len() - 1 implies key_of(#[trigger] init[k])
        != key_of(rows.last()) by {
        assert(key_of(rows[k]) != key_of(rows[rows.len() - 1]));
    }
}

proof fn present(rows: Seq<Usage>, k: int)
    requires
        distinct(rows),
        0 <= k < rows.len(),
    ensures
        observed(rows).dom().contains(key_of(rows[k])),
        observed(rows)[key_of(rows[k])] == (rows[k].usec, rows[k].at),
    decreases rows.len(),
{
    distinct_init(rows);
    if k < rows.len() - 1 {
        present(rows.drop_last(), k);
        assert(key_of(rows[k]) != key_of(rows[rows.len() - 1]));
    }
}

proof fn dropped(rows: Seq<Usage>, k: int)
    requires
        distinct(rows),
        0 <= k < rows.len(),
    ensures
        distinct(rows.remove(k)),
        observed(rows.remove(k)) == observed(rows).remove(key_of(rows[k])),
        forall|i: int|
            0 <= i < rows.len() - 1 ==> key_of(#[trigger] rows.remove(k)[i]) != key_of(rows[k]),
    decreases rows.len(),
{
    let rest = rows.remove(k);
    assert forall|i: int, j: int| 0 <= i < j < rest.len() implies key_of(#[trigger] rest[i])
        != key_of(#[trigger] rest[j]) by {
        let a = if i < k {
            i
        } else {
            i + 1
        };
        let b = if j < k {
            j
        } else {
            j + 1
        };
        assert(key_of(rows[a]) != key_of(rows[b]));
    }
    assert forall|i: int| 0 <= i < rows.len() - 1 implies key_of(#[trigger] rest[i])
        != key_of(rows[k]) by {
        if i < k {
            assert(key_of(rows[i]) != key_of(rows[k]));
        } else {
            assert(key_of(rows[k]) != key_of(rows[i + 1]));
        }
    }
    distinct_init(rows);
    if k == rows.len() - 1 {
        assert(rest =~= rows.drop_last());
        absent(rows.drop_last(), key_of(rows.last()));
        assert(observed(rest) =~= observed(rows).remove(key_of(rows[k])));
    } else {
        dropped(rows.drop_last(), k);
        assert(rest.drop_last() =~= rows.drop_last().remove(k));
        assert(rest.last() == rows.last());
        assert(key_of(rows[k]) != key_of(rows[rows.len() - 1]));
        assert(observed(rest) =~= observed(rows).remove(key_of(rows[k])));
    }
}

impl CpuRateTracker {
    /// No path occurs twice.
    pub open spec fn wf(&self) -> bool {
        distinct(self.prev@)
    }

    /// A tracker that has seen nothing.
    pub fn new() -> (r: CpuRateTracker)
        ensures
            r.wf(),
            r@ == Map::<Seq<Seq<char>>, (u64, u64)>::empty(),
    {
        CpuRateTracker { prev: Vec::new() }
    }

    /// Note what the counter of the directory `id` reads at `at`, and say by how much it moved
    /// since its last reading. Nothing is said on the first reading, where no time
    /// has passed, or where the counter went back; a missing reading forgets the
    /// one before.
    pub fn rate(&mut self, id: &str, usage_usec: Option<u64>, at: u64) -> (r: Option<CpuDelta>)
        requires
            old(self).wf(),
        ensures
            final(self).wf(),
            final(self)@ == noted(old(self)@, components(id@), usage_usec, at),
            r == delta(known(old(self)@, components(id@)), usage_usec, at),
    {
        let ghost rows = self.prev@;
        let mut i: usize = 0;
        let mut before: Option<Usage> = None;
        while i < self.prev.len()
            invariant_except_break
                i <= self.prev@.len(),
                self.prev@ == rows,
                before is None,
                forall|k: int| 0 <= k < i ==> key_of(#[trigger] rows[k]) != components(id@),
            invariant
                distinct(rows),
            ensures
                before is None ==> self.prev@ == rows && forall|k: int|
                    0 <= k < rows.len() ==> key_of(#[trigger] rows[k]) != components(id@),
                before matches Some(b) ==> i < rows.len() && b == rows[i as int] && key_of(b)
                    == components(id@) && self.prev@ == rows.remove(i as int),
            decreases self.prev@.len() - i,
        {
            if same_path(self.prev[i].id.as_str(), id) {
                before = Some(self.prev.remove(i));
                break;
            }
            i = i + 1;
        }
        let ghost bare = self.prev@;
        proof {
            if before is None {
                absent(rows, components(id@));
                assert(observed(rows).remove(components(id@)) =~= observed(rows));
            } else {
                present(rows, i as int);
                dropped(rows, i as int);
            }
            assert(distinct(bare));
            assert(observed(bare) == observed(rows).remove(components(id@)));
            assert(forall|k: int|
                0 <= k < bare.len() ==> key_of(#[trigger] bare[k]) != components(id@));
        }
        match usage_usec {
            Some(cur) => {
                self.prev.push(Usage { id: owned(id), usec: cur, at });
                proof {
                    assert(self.prev@.drop_last() =~= bare);
                    assert(observed(self.prev@) =~= observed(rows).insert(
                        components(id@),
                        (cur, at),
                    ));
                }
                match before {
                    Some(b) => if at > b.at && cur >= b.usec {
                        Some(CpuDelta { usec: cur - b.usec, nanos: at - b.at })
                    } else {
                        None
                    },
                    None => None,
                }
            },
            None => None,
        }
    }
}

/// Runners do not mix: what is noted of one changes nothing that is later said of
/// another.
pub proof fn runners_do_not_mix(
    m: Map<Seq<Seq<char>>, (u64, u64)>,
    id: Seq<Seq<char>>,
    usec: Option<u64>,
    at: u64,
    other: Seq<Seq<char>>,
    later: Option<u64>,
    then: u64,
)
    requires
        id != other,
    ensures
        delta(known(noted(m, id, usec, at), other), later, then) == delta(
            known(m, other),
            later,
            then,
        ),
{
}

/// A first reading says nothing, and nor does the one after a missing reading.
pub proof fn a_rate_needs_two_readings(
    m: Map<Seq<Seq<char>>, (u64, u64)>,
    id: Seq<Seq<char>>,
    at: u64,
    later: Option<u64>,
    then: u64,
)
    ensures
        !m.dom().contains(id) ==> delta(known(m, id), later, then) is None,
        delta(known(noted(m, id, None, at), id), later, then) is None,
{
}

} // verus!

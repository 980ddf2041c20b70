//! What the counts of a snapshot add up to.

use vstd::prelude::*;

use crate::metrics::{
    divergence_cross_cuts, diverging, every_org_is_rolled_up, how_many, in_org, org_counts_nest,
    org_names, rollup_of, rollups, rollups_of, states_partition_the_fleet, with_liveness, with_name,
    with_name_adds, Rollup, RunnerMetric, Snapshot,
};
use crate::models::Liveness;
use crate::store::rows::select;
use crate::text::{sorts_before, sorts_before_transitive, text_le_total};

verus! {

/// Each name sorts before the next.
pub open spec fn ascending(s: Seq<Seq<char>>) -> bool {
    forall|i: int, j: int|
        0 <= i < j < s.len() ==> sorts_before(#[trigger] s[i], #[trigger] s[j])
}

/// The runners that rollups count, all orgs together.
pub open spec fn total_of(v: Seq<Rollup>) -> int
    decreases v.len(),
{
    if v.len() == 0 {
        0
    } else {
        total_of(v.drop_last()) + v.last().total
    }
}

proof fn with_name_ascends(s: Seq<Seq<char>>, x: Seq<char>)
    requires
        ascending(s),
    ensures
        ascending(with_name(s, x)),
    decreases s.len(),
{
    let r = with_name(s, x);
    if s.len() == 0 || s.last() == x {
    } else if sorts_before(s.last(), x) {
        assert forall|i: int| 0 <= i < s.len() implies sorts_before(#[trigger] s[i], x) by {
            if i < s.len() - 1 {
                sorts_before_transitive(s[i], s[s.len() - 1], x);
            }
        }
    } else {
        let init = s.drop_last();
        let m = with_name(init, x);
        with_name_ascends(init, x);
        text_le_total(s.last(), x);
        assert forall|i: int| 0 <= i < m.len() implies sorts_before(#[trigger] m[i], s.last()) by {
            with_name_adds(init, x, m[i]);
            assert(m.contains(m[i]));
            if init.contains(m[i]) {
                let k = choose|k: int| 0 <= k < init.len() && init[k] == m[i];
                assert(s[k] == m[i]);
                assert(sorts_before(s[k], s[s.len() - 1]));
            }
        }
        assert(r == m.push(s.last()));
    }
}

/// The orgs of a fleet come in text order, each once.
pub proof fn orgs_ascend(rs: Seq<RunnerMetric>, n: int)
    requires
        0 <= n <= rs.len(),
    ensures
        ascending(org_names(rs, n)),
    decreases n,
{
    if n > 0 {
        orgs_ascend(rs, n - 1);
        with_name_ascends(org_names(rs, n - 1), rs[n - 1].org@);
    }
}

/// Of the first `n` runners, those that belong to one of the orgs.
spec fn members(rs: Seq<RunnerMetric>, orgs: Seq<Seq<char>>, n: int) -> int
    decreases orgs.len(),
{
    if orgs.len() == 0 {
        0
    } else {
        members(rs, orgs.drop_last(), n) + select(in_org(rs, orgs.last()), n).len()
    }
}

/// A runner more counts once, where its org is among distinct orgs.
proof fn one_member_more(rs: Seq<RunnerMetric>, orgs: Seq<Seq<char>>, n: int)
    requires
        0 < n <= rs.len(),
        ascending(orgs),
    ensures
        members(rs, orgs, n) == members(rs, orgs, n - 1) + if orgs.contains(rs[n - 1].org@) {
            1int
        } else {
            0
        },
    decreases orgs.len(),
{
    let x = rs[n - 1].org@;
    if orgs.len() > 0 {
        let init = orgs.drop_last();
        assert(ascending(init)) by {
            assert forall|i: int, j: int| 0 <= i < j < init.len() implies sorts_before(
                #[trigger] init[i],
                #[trigger] init[j],
            ) by {
                assert(sorts_before(orgs[i], orgs[j]));
            }
        }
        one_member_more(rs, init, n);
        let p = in_org(rs, orgs.last());
        assert(p(n - 1) == (x == orgs.last()));
        if init.contains(x) {
            let k = choose|k: int| 0 <= k < init.len() && init[k] == x;
            assert(orgs[k] == x);
            assert(sorts_before(orgs[k], orgs[orgs.len() - 1]));
        }
        if orgs.contains(x) && x != orgs.last() {
            let k = choose|k: int| 0 <= k < orgs.len() && orgs[k] == x;
            assert(init[k] == x);
        }
        if x == orgs.last() {
            assert(orgs[orgs.len() - 1] == x);
        }
    }
}

proof fn no_members_at_first(rs: Seq<RunnerMetric>, orgs: Seq<Seq<char>>)
    ensures
        members(rs, orgs, 0) == 0,
    decreases orgs.len(),
{
    if orgs.len() > 0 {
        no_members_at_first(rs, orgs.drop_last());
    }
}

proof fn all_are_members(rs: Seq<RunnerMetric>, orgs: Seq<Seq<char>>, n: int)
    requires
        0 <= n <= rs.len(),
        ascending(orgs),
        forall|k: int| 0 <= k < n ==> orgs.contains(#[trigger] rs[k].org@),
    ensures
        members(rs, orgs, n) == n,
    decreases n,
{
    if n > 0 {
        all_are_members(rs, orgs, n - 1);
        one_member_more(rs, orgs, n);
        assert(orgs.contains(rs[n - 1].org@));
    } else {
        no_members_at_first(rs, orgs);
    }
}

pub(crate) proof fn selected_within(p: spec_fn(int) -> bool, n: int)
    requires
        n >= 0,
    ensures
        select(p, n).len() <= n,
    decreases n,
{
    if n > 0 {
        selected_within(p, n - 1);
    }
}

proof fn rollups_count_members(rs: Seq<RunnerMetric>, orgs: Seq<Seq<char>>)
    requires
        rs.len() <= u32::MAX,
    ensures
        total_of(orgs.map_values(|org: Seq<char>| rollup_of(rs, org))) == members(
            rs,
            orgs,
            rs.len() as int,
        ),
    decreases orgs.len(),
{
    let v = orgs.map_values(|org: Seq<char>| rollup_of(rs, org));
    if orgs.len() > 0 {
        rollups_count_members(rs, orgs.drop_last());
        assert(v.drop_last() =~= orgs.drop_last().map_values(
            |org: Seq<char>| rollup_of(rs, org),
        ));
        selected_within(in_org(rs, orgs.last()), rs.len() as int);
    }
}

/// The rollups come in the text order of their orgs, no org twice, and together
/// they count every runner once, as long as the counts fit.
pub proof fn rollups_cover_the_fleet(rs: Seq<RunnerMetric>)
    ensures
        forall|i: int, j: int|
            0 <= i < j < rollups_of(rs).len() ==> sorts_before(
                (#[trigger] rollups_of(rs)[i]).org,
                (#[trigger] rollups_of(rs)[j]).org,
            ),
        rs.len() <= u32::MAX ==> total_of(rollups_of(rs)) == rs.len(),
{
    let n = rs.len() as int;
    let orgs = org_names(rs, n);
    orgs_ascend(rs, n);
    assert forall|i: int, j: int| 0 <= i < j < rollups_of(rs).len() implies sorts_before(
        (#[trigger] rollups_of(rs)[i]).org,
        (#[trigger] rollups_of(rs)[j]).org,
    ) by {
        assert(sorts_before(orgs[i], orgs[j]));
    }
    if rs.len() <= u32::MAX {
        assert forall|k: int| 0 <= k < n implies orgs.contains(#[trigger] rs[k].org@) by {
            every_org_is_rolled_up(rs, n, rs[k].org@);
        }
        all_are_members(rs, orgs, n);
        rollups_count_members(rs, orgs);
    }
}

/// The counts of a snapshot add up, as long as the fleet's size fits: the states
/// partition the fleet, what diverges is up, and the orgs together count every
/// runner once, none more online than known and none more known than there are.
pub proof fn a_snapshot_adds_up(s: Snapshot)
    requires
        s.counts_agree(),
        s.runners@.len() <= u32::MAX,
    ensures
        s.busy + s.idle + s.offline == s.runners@.len(),
        s.divergent == how_many(s.runners@, diverging(s.runners@)),
        s.divergent <= s.busy + s.idle,
        total_of(rollups(s.orgs@)) == s.runners@.len(),
        forall|k: int|
            0 <= k < s.orgs@.len() ==> (#[trigger] s.orgs@[k]).github_online
                <= s.orgs@[k].github_known <= s.orgs@[k].total,
        forall|i: int, j: int|
            0 <= i < j < s.orgs@.len() ==> sorts_before(
                (#[trigger] s.orgs@[i]).org@,
                (#[trigger] s.orgs@[j]).org@,
            ),
{
    let rs = s.runners@;
    let n = rs.len() as int;
    states_partition_the_fleet(rs, n);
    divergence_cross_cuts(rs, n);
    selected_within(with_liveness(rs, Liveness::Busy), n);
    selected_within(with_liveness(rs, Liveness::Idle), n);
    selected_within(with_liveness(rs, Liveness::Offline), n);
    selected_within(diverging(rs), n);
    rollups_cover_the_fleet(rs);
    assert(rollups(s.orgs@).len() == s.orgs@.len());
    assert forall|k: int| 0 <= k < s.orgs@.len() implies (#[trigger] s.orgs@[k]).github_online
        <= s.orgs@[k].github_known <= s.orgs@[k].total by {
        let org = org_names(rs, n)[k];
        assert(s.orgs@[k]@ == rollups(s.orgs@)[k]);
        assert(rollups_of(rs)[k] == rollup_of(rs, org));
        org_counts_nest(rs, org, n);
    }
    assert forall|i: int, j: int| 0 <= i < j < s.orgs@.len() implies sorts_before(
        (#[trigger] s.orgs@[i]).org@,
        (#[trigger] s.orgs@[j]).org@,
    ) by {
        assert(s.orgs@[i]@ == rollups(s.orgs@)[i]);
        assert(s.orgs@[j]@ == rollups(s.orgs@)[j]);
        assert(rollups_of(rs)[i] == rollups(s.orgs@)[i] && rollups_of(rs)[j] == rollups(s.orgs@)[j]);
    }
}

} // verus!

//! Picking and ordering rows by their positions in a table.
//!
//! A query selects positions, orders them and reads the rows there; these are
//! the steps, each with what it gives.

use vstd::prelude::*;

verus! {

/// The positions below `n` that satisfy `p`, ascending.
pub open spec fn select(p: spec_fn(int) -> bool, n: int) -> Seq<int>
    decreases n,
{
    if n <= 0 {
        seq![]
    } else if p(n - 1) {
        select(p, n - 1).push(n - 1)
    } else {
        select(p, n - 1)
    }
}

/// `ord` with `x` put behind the last position that may stand before it.
pub open spec fn place(before: spec_fn(int, int) -> bool, ord: Seq<int>, x: int) -> Seq<int>
    decreases ord.len(),
{
    if ord.len() == 0 || before(ord.last(), x) {
        ord.push(x)
    } else {
        place(before, ord.drop_last(), x).push(ord.last())
    }
}

/// The positions of `idx`, ordered; those that may stand either way keep their
/// order.
pub open spec fn order(before: spec_fn(int, int) -> bool, idx: Seq<int>) -> Seq<int>
    decreases idx.len(),
{
    if idx.len() == 0 {
        seq![]
    } else {
        place(before, order(before, idx.drop_last()), idx.last())
    }
}

/// The last `limit` of `s`.
pub open spec fn last_of<T>(s: Seq<T>, limit: nat) -> Seq<T> {
    if s.len() <= limit {
        s
    } else {
        s.skip(s.len() - limit)
    }
}

/// The first `limit` of `s`.
pub open spec fn first_of<T>(s: Seq<T>, limit: nat) -> Seq<T> {
    if s.len() <= limit {
        s
    } else {
        s.take(limit as int)
    }
}

/// The least position below `n` that satisfies `p`; `n` where none does.
pub open spec fn first_where(p: spec_fn(int) -> bool, n: int) -> int
    decreases n,
{
    if n <= 0 {
        0
    } else {
        let k = first_where(p, n - 1);
        if k < n - 1 || p(n - 1) {
            k
        } else {
            n
        }
    }
}

/// Positions, as executable code holds them.
pub open spec fn at(v: Seq<usize>) -> Seq<int> {
    v.map_values(|i: usize| i as int)
}

// ---------------------------------------------------------------------------
// What holds of them
// ---------------------------------------------------------------------------

/// What `select` gives: exactly the positions that satisfy `p`, ascending.
pub proof fn select_is_exact(p: spec_fn(int) -> bool, n: int)
    ensures
        forall|k: int| 0 <= k < select(p, n).len() ==> 0 <= #[trigger] select(p, n)[k] < n,
        forall|k: int| 0 <= k < select(p, n).len() ==> p(#[trigger] select(p, n)[k]),
        forall|a: int, b: int|
            0 <= a < b < select(p, n).len() ==> #[trigger] select(p, n)[a] < #[trigger] select(p, n)[b],
        forall|i: int| 0 <= i < n && #[trigger] p(i) ==> select(p, n).contains(i),
    decreases n,
{
    if n > 0 {
        select_is_exact(p, n - 1);
        let s = select(p, n - 1);
        let t = select(p, n);
        assert forall|i: int| 0 <= i < n && #[trigger] p(i) implies t.contains(i) by {
            if i == n - 1 {
                assert(t[t.len() - 1] == i);
            } else {
                assert(s.contains(i));
                let k = choose|k: int| 0 <= k < s.len() && s[k] == i;
                assert(t[k] == i);
            }
        }
    }
}

/// As many positions are selected as satisfy `p`.
pub proof fn selected_are_counted(p: spec_fn(int) -> bool, n: int)
    requires
        n >= 0,
    ensures
        Set::new(|i: int| 0 <= i < n && p(i)).finite(),
        select(p, n).len() == Set::new(|i: int| 0 <= i < n && p(i)).len(),
    decreases n,
{
    let s = Set::new(|i: int| 0 <= i < n && p(i));
    if n > 0 {
        selected_are_counted(p, n - 1);
        let t = Set::new(|i: int| 0 <= i < n - 1 && p(i));
        if p(n - 1) {
            assert(s =~= t.insert(n - 1));
        } else {
            assert(s =~= t);
        }
    } else {
        assert(s =~= Set::<int>::empty());
    }
}

/// `place` adds `x` and nothing else.
pub proof fn place_adds_one(before: spec_fn(int, int) -> bool, ord: Seq<int>, x: int)
    ensures
        place(before, ord, x).to_multiset() == ord.to_multiset().insert(x),
        place(before, ord, x).len() == ord.len() + 1,
    decreases ord.len(),
{
    broadcast use vstd::seq_lib::group_to_multiset_ensures;

    if ord.len() == 0 || before(ord.last(), x) {
    } else {
        let init = ord.drop_last();
        place_adds_one(before, init, x);
        assert(ord =~= init.push(ord.last()));
        assert(place(before, ord, x).to_multiset() =~= ord.to_multiset().insert(x));
    }
}

/// Ordering neither loses nor adds a position.
pub proof fn order_is_a_permutation(before: spec_fn(int, int) -> bool, idx: Seq<int>)
    ensures
        order(before, idx).to_multiset() == idx.to_multiset(),
        order(before, idx).len() == idx.len(),
    decreases idx.len(),
{
    broadcast use vstd::seq_lib::group_to_multiset_ensures;

    if idx.len() > 0 {
        order_is_a_permutation(before, idx.drop_last());
        place_adds_one(before, order(before, idx.drop_last()), idx.last());
        assert(idx =~= idx.drop_last().push(idx.last()));
    } else {
        assert(order(before, idx) =~= idx);
    }
}

/// `before` decides any two positions, and chains.
pub open spec fn total_preorder(before: spec_fn(int, int) -> bool) -> bool {
    &&& forall|a: int, b: int| #[trigger] before(a, b) || before(b, a)
    &&& forall|a: int, b: int, c: int| #[trigger]
        before(a, b) && #[trigger] before(b, c) ==> before(a, c)
}

/// Each position may stand before every later one.
pub open spec fn in_order(before: spec_fn(int, int) -> bool, s: Seq<int>) -> bool {
    forall|a: int, b: int| 0 <= a < b < s.len() ==> before(#[trigger] s[a], #[trigger] s[b])
}

proof fn place_keeps_order(before: spec_fn(int, int) -> bool, ord: Seq<int>, x: int)
    requires
        total_preorder(before),
        in_order(before, ord),
    ensures
        in_order(before, place(before, ord, x)),
        forall|y: int|
            (forall|k: int| 0 <= k < ord.len() ==> before(#[trigger] ord[k], y)) && #[trigger] before(
                x,
                y,
            ) ==> (forall|k: int|
                0 <= k < place(before, ord, x).len() ==> before(
                    #[trigger] place(before, ord, x)[k],
                    y,
                )),
    decreases ord.len(),
{
    let r = place(before, ord, x);
    if ord.len() == 0 {
    } else if before(ord.last(), x) {
        assert forall|a: int, b: int| 0 <= a < b < r.len() implies before(
            #[trigger] r[a],
            #[trigger] r[b],
        ) by {
            if b == ord.len() {
                if a < ord.len() - 1 {
                    assert(before(ord[a], ord[ord.len() - 1]));
                }
                assert(before(ord.last(), x));
            }
        }
    } else {
        let init = ord.drop_last();
        assert(in_order(before, init)) by {
            assert forall|a: int, b: int| 0 <= a < b < init.len() implies before(
                #[trigger] init[a],
                #[trigger] init[b],
            ) by {
                assert(before(ord[a], ord[b]));
            }
        }
        place_keeps_order(before, init, x);
        let m = place(before, init, x);
        let z = ord.last();
        assert(before(x, z));
        assert(forall|k: int| 0 <= k < init.len() ==> before(#[trigger] init[k], z)) by {
            assert forall|k: int| 0 <= k < init.len() implies before(#[trigger] init[k], z) by {
                assert(before(ord[k], ord[ord.len() - 1]));
            }
        }
        assert(forall|k: int| 0 <= k < m.len() ==> before(#[trigger] m[k], z));
        assert forall|y: int|
            (forall|k: int| 0 <= k < ord.len() ==> before(#[trigger] ord[k], y)) && #[trigger] before(
                x,
                y,
            ) implies (forall|k: int| 0 <= k < r.len() ==> before(#[trigger] r[k], y)) by {
            assert forall|k: int| 0 <= k < init.len() implies before(#[trigger] init[k], y) by {
                assert(before(ord[k], y));
            }
            assert(before(ord[ord.len() - 1], y));
            assert(forall|k: int| 0 <= k < m.len() ==> before(#[trigger] m[k], y));
        }
    }
}

/// An order that decides any two positions is met throughout the result.
pub proof fn order_is_sorted(before: spec_fn(int, int) -> bool, idx: Seq<int>)
    requires
        total_preorder(before),
    ensures
        in_order(before, order(before, idx)),
    decreases idx.len(),
{
    if idx.len() > 0 {
        order_is_sorted(before, idx.drop_last());
        place_keeps_order(before, order(before, idx.drop_last()), idx.last());
    }
}

/// Ordering stays within the positions it was given.
pub proof fn order_stays_within(before: spec_fn(int, int) -> bool, idx: Seq<int>, n: int)
    requires
        forall|k: int| 0 <= k < idx.len() ==> 0 <= #[trigger] idx[k] < n,
    ensures
        order(before, idx).len() == idx.len(),
        forall|k: int| 0 <= k < order(before, idx).len() ==> 0 <= #[trigger] order(before, idx)[k] < n,
{
    broadcast use vstd::seq_lib::group_to_multiset_ensures;

    order_is_a_permutation(before, idx);
    let o = order(before, idx);
    assert forall|k: int| 0 <= k < o.len() implies 0 <= #[trigger] o[k] < n by {
        assert(o.contains(o[k]));
        assert(o.to_multiset().count(o[k]) > 0);
        assert(idx.contains(o[k]));
    }
}

/// Where `first_where` stops.
pub proof fn first_where_is_least(p: spec_fn(int) -> bool, n: int)
    requires
        n >= 0,
    ensures
        0 <= first_where(p, n) <= n,
        first_where(p, n) < n ==> p(first_where(p, n)),
        forall|i: int| 0 <= i < first_where(p, n) ==> !#[trigger] p(i),
    decreases n,
{
    if n > 0 {
        first_where_is_least(p, n - 1);
    }
}

/// A position is the first where it satisfies `p` and none before it does.
pub proof fn first_where_unique(p: spec_fn(int) -> bool, n: int, k: int)
    requires
        0 <= k <= n,
        k < n ==> p(k),
        forall|i: int| 0 <= i < k ==> !#[trigger] p(i),
    ensures
        first_where(p, n) == k,
{
    first_where_is_least(p, n);
    let f = first_where(p, n);
    if f < k {
        assert(!p(f));
    } else if k < f {
        assert(!p(k));
    }
}

/// `a` comes before `b`: by its key, and by its position where the keys are equal.
pub open spec fn earlier(key: spec_fn(int) -> int, a: int, b: int) -> bool {
    key(a) < key(b) || key(a) == key(b) && a < b
}

/// Each position comes before every later one.
pub open spec fn ascends(key: spec_fn(int) -> int, s: Seq<int>) -> bool {
    forall|a: int, b: int| 0 <= a < b < s.len() ==> earlier(key, #[trigger] s[a], #[trigger] s[b])
}

proof fn place_is_stable(
    before: spec_fn(int, int) -> bool,
    key: spec_fn(int) -> int,
    ord: Seq<int>,
    x: int,
)
    requires
        forall|i: int, j: int| #[trigger] before(i, j) == (key(i) <= key(j)),
        ascends(key, ord),
        forall|k: int| 0 <= k < ord.len() ==> #[trigger] ord[k] < x,
    ensures
        ascends(key, place(before, ord, x)),
        forall|y: int| #[trigger] place(before, ord, x).contains(y) <==> ord.contains(y) || y == x,
    decreases ord.len(),
{
    let r = place(before, ord, x);
    if ord.len() == 0 || before(ord.last(), x) {
        assert forall|a: int, b: int| 0 <= a < b < r.len() implies earlier(
            key,
            #[trigger] r[a],
            #[trigger] r[b],
        ) by {
            if b == ord.len() {
                assert(ord[a] < x);
                if a < ord.len() - 1 {
                    assert(earlier(key, ord[a], ord[ord.len() - 1]));
                }
            }
        }
        assert forall|y: int| #[trigger] r.contains(y) <==> ord.contains(y) || y == x by {
            if ord.contains(y) {
                let k = choose|k: int| 0 <= k < ord.len() && ord[k] == y;
                assert(r[k] == y);
            }
            if y == x {
                assert(r[ord.len() as int] == y);
            }
        }
    } else {
        let init = ord.drop_last();
        let z = ord.last();
        let m = place(before, init, x);
        assert(ascends(key, init)) by {
            assert forall|a: int, b: int| 0 <= a < b < init.len() implies earlier(
                key,
                #[trigger] init[a],
                #[trigger] init[b],
            ) by {
                assert(earlier(key, ord[a], ord[b]));
            }
        }
        place_is_stable(before, key, init, x);
        assert(key(x) < key(z));
        assert forall|a: int, b: int| 0 <= a < b < r.len() implies earlier(
            key,
            #[trigger] r[a],
            #[trigger] r[b],
        ) by {
            if b == m.len() {
                assert(m.contains(m[a]));
                if init.contains(m[a]) {
                    let k = choose|k: int| 0 <= k < init.len() && init[k] == m[a];
                    assert(earlier(key, ord[k], ord[ord.len() - 1]));
                }
            }
        }
        assert forall|y: int| #[trigger] r.contains(y) <==> ord.contains(y) || y == x by {
            if r.contains(y) {
                let k = choose|k: int| 0 <= k < r.len() && r[k] == y;
                if k < m.len() {
                    assert(m.contains(m[k]));
                    if init.contains(y) {
                        let j = choose|j: int| 0 <= j < init.len() && init[j] == y;
                        assert(ord[j] == y);
                    }
                } else {
                    assert(ord[ord.len() - 1] == y);
                }
            }
            if ord.contains(y) {
                let k = choose|k: int| 0 <= k < ord.len() && ord[k] == y;
                if k < init.len() {
                    assert(init[k] == y);
                    assert(m.contains(y));
                } else {
                    assert(r[m.len() as int] == y);
                }
            }
            if m.contains(y) {
                let k = choose|k: int| 0 <= k < m.len() && m[k] == y;
                assert(r[k] == y);
            }
            if y == x {
                assert(m.contains(y));
            }
        }
    }
}

/// Ordering by a key sorts by it, keeps what shares a key in its order, and
/// neither loses nor adds a position.
pub proof fn order_is_stable(
    before: spec_fn(int, int) -> bool,
    key: spec_fn(int) -> int,
    idx: Seq<int>,
)
    requires
        forall|i: int, j: int| #[trigger] before(i, j) == (key(i) <= key(j)),
        forall|a: int, b: int| 0 <= a < b < idx.len() ==> #[trigger] idx[a] < #[trigger] idx[b],
    ensures
        ascends(key, order(before, idx)),
        forall|y: int| #[trigger] order(before, idx).contains(y) <==> idx.contains(y),
    decreases idx.len(),
{
    if idx.len() > 0 {
        let init = idx.drop_last();
        let x = idx.last();
        let o = order(before, init);
        assert forall|a: int, b: int| 0 <= a < b < init.len() implies #[trigger] init[a]
            < #[trigger] init[b] by {
            assert(idx[a] < idx[b]);
        }
        order_is_stable(before, key, init);
        assert forall|k: int| 0 <= k < o.len() implies #[trigger] o[k] < x by {
            assert(o.contains(o[k]));
            let j = choose|j: int| 0 <= j < init.len() && init[j] == o[k];
            assert(idx[j] < idx[idx.len() - 1]);
        }
        place_is_stable(before, key, o, x);
        assert forall|y: int| #[trigger] order(before, idx).contains(y) <==> idx.contains(y) by {
            if idx.contains(y) {
                let k = choose|k: int| 0 <= k < idx.len() && idx[k] == y;
                if k < init.len() {
                    assert(init[k] == y);
                    assert(o.contains(y));
                }
            }
            if o.contains(y) {
                let k = choose|k: int| 0 <= k < init.len() && init[k] == y;
                assert(idx[k] == y);
            }
            if y == x {
                assert(idx[idx.len() - 1] == y);
            }
        }
    } else {
        assert(order(before, idx) =~= idx);
    }
}

// ---------------------------------------------------------------------------
// Computing them
// ---------------------------------------------------------------------------

/// The positions below `n` that satisfy `p`, ascending.
pub(crate) fn select_rows<F: Fn(usize) -> bool>(n: usize, p: F, Ghost(sp): Ghost<spec_fn(int) -> bool>)
    -> (r: Vec<usize>)
    requires
        forall|i: usize| i < n ==> #[trigger] call_requires(p, (i,)),
        forall|i: usize, b: bool| i < n && #[trigger] call_ensures(p, (i,), b) ==> b == sp(i as int),
    ensures
        at(r@) == select(sp, n as int),
        forall|k: int| 0 <= k < r@.len() ==> #[trigger] r@[k] < n,
{
    let mut out: Vec<usize> = Vec::new();
    let mut i: usize = 0;
    assert(at(out@) =~= select(sp, 0));
    while i < n
        invariant
            i <= n,
            forall|j: usize| j < n ==> #[trigger] call_requires(p, (j,)),
            forall|j: usize, b: bool|
                j < n && #[trigger] call_ensures(p, (j,), b) ==> b == sp(j as int),
            at(out@) == select(sp, i as int),
            forall|k: int| 0 <= k < out@.len() ==> #[trigger] out@[k] < n,
        decreases n - i,
    {
        let ghost before = out@;
        if p(i) {
            out.push(i);
            assert(at(out@) =~= at(before).push(i as int));
        }
        i = i + 1;
    }
    out
}

proof fn place_is_insert(before: spec_fn(int, int) -> bool, ord: Seq<int>, x: int, p: int)
    requires
        0 <= p <= ord.len(),
        p > 0 ==> before(ord[p - 1], x),
        forall|k: int| p <= k < ord.len() ==> !before(#[trigger] ord[k], x),
    ensures
        place(before, ord, x) == ord.insert(p, x),
    decreases ord.len(),
{
    if p == ord.len() {
        assert(ord.insert(p, x) =~= ord.push(x));
    } else {
        assert(!before(ord[ord.len() - 1], x));
        let init = ord.drop_last();
        assert forall|k: int| p <= k < init.len() implies !before(#[trigger] init[k], x) by {
            assert(!before(ord[k], x));
        }
        place_is_insert(before, init, x, p);
        assert(ord.insert(p, x) =~= init.insert(p, x).push(ord.last()));
    }
}

/// The positions of `idx`, ordered. Rows that arrive in order are only appended.
pub(crate) fn order_rows<F: Fn(usize, usize) -> bool>(
    idx: &Vec<usize>,
    n: usize,
    before: F,
    Ghost(rel): Ghost<spec_fn(int, int) -> bool>,
) -> (r: Vec<usize>)
    requires
        forall|k: int| 0 <= k < idx@.len() ==> #[trigger] idx@[k] < n,
        forall|i: usize, j: usize| i < n && j < n ==> #[trigger] call_requires(before, (i, j)),
        forall|i: usize, j: usize, b: bool|
            i < n && j < n && #[trigger] call_ensures(before, (i, j), b) ==> b == rel(
                i as int,
                j as int,
            ),
    ensures
        at(r@) == order(rel, at(idx@)),
        r@.len() == idx@.len(),
        forall|k: int| 0 <= k < r@.len() ==> #[trigger] r@[k] < n,
{
    let mut out: Vec<usize> = Vec::new();
    let mut i: usize = 0;
    assert(at(idx@).take(0) =~= seq![]);
    assert(at(out@) =~= order(rel, at(idx@).take(0)));
    while i < idx.len()
        invariant
            i <= idx@.len(),
            out@.len() == i,
            forall|k: int| 0 <= k < idx@.len() ==> #[trigger] idx@[k] < n,
            forall|a: usize, b: usize| a < n && b < n ==> #[trigger] call_requires(before, (a, b)),
            forall|a: usize, b: usize, c: bool|
                a < n && b < n && #[trigger] call_ensures(before, (a, b), c) ==> c == rel(
                    a as int,
                    b as int,
                ),
            at(out@) == order(rel, at(idx@).take(i as int)),
            forall|k: int| 0 <= k < out@.len() ==> #[trigger] out@[k] < n,
        decreases idx@.len() - i,
    {
        let x: usize = idx[i];
        let ghost ord = out@;
        let mut p: usize = out.len();
        while p > 0 && !before(out[p - 1], x)
            invariant
                p <= out@.len(),
                out@ == ord,
                x < n,
                forall|k: int| 0 <= k < out@.len() ==> #[trigger] out@[k] < n,
                forall|a: usize, b: usize|
                    a < n && b < n ==> #[trigger] call_requires(before, (a, b)),
                forall|a: usize, b: usize, c: bool|
                    a < n && b < n && #[trigger] call_ensures(before, (a, b), c) ==> c == rel(
                        a as int,
                        b as int,
                    ),
                forall|k: int| p <= k < ord.len() ==> !rel(at(ord)[k], x as int),
            ensures
                p <= out@.len(),
                out@ == ord,
                p > 0 ==> rel(at(ord)[p - 1], x as int),
                forall|k: int| p <= k < ord.len() ==> !rel(at(ord)[k], x as int),
            decreases p,
        {
            p = p - 1;
        }
        out.insert(p, x);
        proof {
            place_is_insert(rel, at(ord), x as int, p as int);
            assert(at(out@) =~= at(ord).insert(p as int, x as int));
            assert(at(idx@).take(i + 1).drop_last() =~= at(idx@).take(i as int));
            assert(at(idx@).take(i + 1).last() == x as int);
        }
        i = i + 1;
    }
    assert(at(idx@).take(i as int) =~= at(idx@));
    out
}

/// The least position below `n` that satisfies `p`; `n` where none does.
pub(crate) fn find_row<F: Fn(usize) -> bool>(n: usize, p: F, Ghost(sp): Ghost<spec_fn(int) -> bool>) -> (r:
    usize)
    requires
        forall|i: usize| i < n ==> #[trigger] call_requires(p, (i,)),
        forall|i: usize, b: bool| i < n && #[trigger] call_ensures(p, (i,), b) ==> b == sp(i as int),
    ensures
        r == first_where(sp, n as int),
        r <= n,
        r < n ==> sp(r as int),
        forall|i: int| 0 <= i < r ==> !#[trigger] sp(i),
{
    let mut i: usize = 0;
    while i < n
        invariant
            i <= n,
            forall|j: usize| j < n ==> #[trigger] call_requires(p, (j,)),
            forall|j: usize, b: bool|
                j < n && #[trigger] call_ensures(p, (j,), b) ==> b == sp(j as int),
            forall|j: int| 0 <= j < i ==> !#[trigger] sp(j),
        decreases n - i,
    {
        if p(i) {
            proof {
                first_where_unique(sp, n as int, i as int);
            }
            return i;
        }
        i = i + 1;
    }
    proof {
        first_where_unique(sp, n as int, n as int);
    }
    n
}

/// The rows that satisfy `keep`, in order.
pub(crate) fn retain_rows<T, F: Fn(&T) -> bool>(
    rows: Vec<T>,
    keep: F,
    Ghost(p): Ghost<spec_fn(T) -> bool>,
) -> (r: Vec<T>)
    requires
        forall|x: T| #[trigger] call_requires(keep, (&x,)),
        forall|x: T, b: bool| #[trigger] call_ensures(keep, (&x,), b) ==> b == p(x),
    ensures
        r@ == rows@.filter(p),
{
    let ghost all = rows@;
    let mut out: Vec<T> = Vec::new();
    proof {
        reveal(Seq::filter);
    }
    assert(all.take(0) =~= seq![]);
    for x in it: rows
        invariant
            it.seq() == all,
            forall|y: T| #[trigger] call_requires(keep, (&y,)),
            forall|y: T, b: bool| #[trigger] call_ensures(keep, (&y,), b) ==> b == p(y),
            out@ == all.take(it.index() as int).filter(p),
    {
        proof {
            reveal(Seq::filter);
            let i = it.index() as int;
            assert(all.take(i + 1).drop_last() =~= all.take(i));
            assert(all.take(i + 1).last() == all[i]);
        }
        if keep(&x) {
            out.push(x);
        }
    }
    assert(all.take(all.len() as int) =~= all);
    out
}

} // verus!

//! Unix paths as text: joining, components, parents and order.

use vstd::prelude::*;
use vstd::slice::{slice_subrange, slice_to_vec};
use vstd::string::*;

use crate::scan::{split, split_on, texts};
use crate::text::{
    chars_of, owned, same_chars, string_of, text_at_or_before, text_le, text_le_antisymmetric,
    text_le_total, text_le_transitive,
};

pub mod laws;

verus! {

// ---------------------------------------------------------------------------
// Joining
// ---------------------------------------------------------------------------

/// `name` below `base`; an absolute `name` replaces it.
pub open spec fn joined(base: Seq<char>, name: Seq<char>) -> Seq<char> {
    if name.len() > 0 && name[0] == '/' {
        name
    } else if base.len() == 0 || base.last() == '/' {
        base + name
    } else {
        base + "/"@ + name
    }
}

/// `name` below `base`; an absolute `name` replaces it.
pub fn join(base: &str, name: &str) -> (r: String)
    ensures
        r@ == joined(base@, name@),
{
    let b = chars_of(base);
    let n = chars_of(name);
    if n.len() > 0 && n[0] == '/' {
        owned(name)
    } else if b.len() == 0 || b[b.len() - 1] == '/' {
        let mut s = owned(base);
        s.append(name);
        s
    } else {
        let mut s = owned(base);
        s.append("/");
        s.append(name);
        s
    }
}

// ---------------------------------------------------------------------------
// Components
// ---------------------------------------------------------------------------

/// Whether a segment is a component: not empty, and not a dot.
pub open spec fn is_named(seg: Seq<char>) -> bool {
    seg.len() > 0 && seg != seq!['.']
}

/// What a path starts with: the root, or the current directory where it says so.
pub open spec fn head(p: Seq<char>) -> Seq<Seq<char>> {
    if p.len() > 0 && p[0] == '/' {
        seq![seq!['/']]
    } else if split(p, '/')[0] == seq!['.'] {
        seq![seq!['.']]
    } else {
        seq![]
    }
}

/// The components of a path: its start, then the segments between slashes that
/// name something.
pub open spec fn components(p: Seq<char>) -> Seq<Seq<char>> {
    head(p) + split(p, '/').filter(|s: Seq<char>| is_named(s))
}

/// The components of a path.
pub fn components_of(p: &[char]) -> (r: Vec<Vec<char>>)
    ensures
        texts(r@) == components(p@),
{
    let segs = split_on(p, '/');
    let ghost all = split(p@, '/');
    let mut out: Vec<Vec<char>> = Vec::new();
    proof {
        reveal_with_fuel(split, 1);
        assert(all.len() > 0);
        assert(texts(segs@).len() == segs@.len());
    }
    if p.len() > 0 && p[0] == '/' {
        let mut c: Vec<char> = Vec::new();
        c.push('/');
        assert(c@ =~= seq!['/']);
        out.push(c);
    } else {
        let dot: Vec<char> = vec!['.'];
        assert(dot@ =~= seq!['.']);
        assert(segs@[0]@ == texts(segs@)[0]);
        if same_chars(segs[0].as_slice(), dot.as_slice()) {
            out.push(dot);
        }
    }
    assert(texts(out@) =~= head(p@));
    proof {
        reveal(Seq::filter);
    }
    let ghost named = |s: Seq<char>| is_named(s);
    assert(all.take(0) =~= seq![]);
    assert(texts(out@) =~= head(p@) + all.take(0).filter(named));
    let mut i: usize = 0;
    while i < segs.len()
        invariant
            i <= segs@.len(),
            texts(segs@) == all,
            all.len() == segs@.len(),
            named == (|s: Seq<char>| is_named(s)),
            texts(out@) == head(p@) + all.take(i as int).filter(named),
        decreases segs@.len() - i,
    {
        proof {
            reveal(Seq::filter);
            assert(all.take(i + 1).drop_last() =~= all.take(i as int));
            assert(all.take(i + 1).last() == all[i as int]);
            assert(segs@[i as int]@ == texts(segs@)[i as int]);
        }
        let seg = &segs[i];
        let named_here = seg.len() > 0 && !(seg.len() == 1 && seg[0] == '.');
        proof {
            if seg@.len() == 1 && seg@[0] == '.' {
                assert(seg@ =~= seq!['.']);
            }
            assert(named_here == is_named(all[i as int]));
        }
        if named_here {
            let ghost was = out@;
            out.push(slice_to_vec(seg.as_slice()));
            assert(texts(out@) =~= texts(was).push(all[i as int]));
            assert(texts(out@) =~= head(p@) + all.take(i as int).filter(named).push(all[i as int]));
        }
        i = i + 1;
    }
    assert(all.take(i as int) =~= all);
    out
}

/// Whether `p` lies at or below `dir`, component by component.
pub open spec fn under(p: Seq<char>, dir: Seq<char>) -> bool {
    components(dir).is_prefix_of(components(p))
}

/// Whether `p` lies at or below `dir`.
pub fn starts_with(p: &str, dir: &str) -> (r: bool)
    ensures
        r == under(p@, dir@),
{
    let a = components_of(chars_of(p).as_slice());
    let b = components_of(chars_of(dir).as_slice());
    let ghost ca = components(p@);
    let ghost cb = components(dir@);
    assert(texts(a@).len() == a@.len() && texts(b@).len() == b@.len());
    if b.len() > a.len() {
        return false;
    }
    let mut i: usize = 0;
    while i < b.len()
        invariant
            i <= b@.len() <= a@.len(),
            texts(a@) == ca,
            texts(b@) == cb,
            ca.len() == a@.len(),
            cb.len() == b@.len(),
            ca == components(p@),
            cb == components(dir@),
            forall|k: int| 0 <= k < i ==> ca[k] == cb[k],
        decreases b@.len() - i,
    {
        assert(texts(a@)[i as int] == a@[i as int]@ && texts(b@)[i as int] == b@[i as int]@);
        if !same_chars(a[i].as_slice(), b[i].as_slice()) {
            assert(cb.is_prefix_of(ca) ==> cb[i as int] == ca.subrange(0, cb.len() as int)[i as int]);
            return false;
        }
        i = i + 1;
    }
    assert(cb =~= ca.subrange(0, cb.len() as int));
    true
}

/// Where a component sorts among the kinds: the root, the current directory, the
/// parent, then names.
pub open spec fn kind(c: Seq<char>) -> int {
    if c == seq!['/'] {
        0
    } else if c == seq!['.'] {
        1
    } else if c == seq!['.', '.'] {
        2
    } else {
        3
    }
}

/// The order of components.
pub open spec fn component_le(a: Seq<char>, b: Seq<char>) -> bool {
    kind(a) < kind(b) || kind(a) == kind(b) && text_le(a, b)
}

/// The order of paths: by the first component that differs, a prefix first.
pub open spec fn components_le(a: Seq<Seq<char>>, b: Seq<Seq<char>>) -> bool
    decreases a.len(),
{
    if a.len() == 0 {
        true
    } else if b.len() == 0 {
        false
    } else if a[0] == b[0] {
        components_le(a.drop_first(), b.drop_first())
    } else {
        component_le(a[0], b[0])
    }
}

/// Where a component sorts among the kinds.
pub fn kind_of(c: &Vec<char>) -> (r: u8)
    ensures
        r == kind(c@),
{
    if c.len() == 1 && c[0] == '/' {
        assert(c@ =~= seq!['/']);
        0
    } else if c.len() == 1 && c[0] == '.' {
        assert(c@ =~= seq!['.']);
        1
    } else if c.len() == 2 && c[0] == '.' && c[1] == '.' {
        assert(c@ =~= seq!['.', '.']);
        2
    } else {
        3
    }
}

fn component_at_or_before(a: &Vec<char>, b: &Vec<char>) -> (r: bool)
    ensures
        r == component_le(a@, b@),
{
    let ka: u8 = kind_of(a);
    let kb: u8 = kind_of(b);
    if ka < kb {
        true
    } else if ka > kb {
        false
    } else {
        text_at_or_before(string_of(a.as_slice()).as_str(), string_of(b.as_slice()).as_str())
    }
}

/// Whether path `a` sorts at or before path `b`.
pub fn path_at_or_before(a: &str, b: &str) -> (r: bool)
    ensures
        r == components_le(components(a@), components(b@)),
{
    let x = components_of(chars_of(a).as_slice());
    let y = components_of(chars_of(b).as_slice());
    let ghost ca = components(a@);
    let ghost cb = components(b@);
    assert(texts(x@).len() == x@.len() && texts(y@).len() == y@.len());
    let mut i: usize = 0;
    assert(ca.skip(0) =~= ca && cb.skip(0) =~= cb);
    while i < x.len() && i < y.len()
        invariant
            i <= x@.len(),
            i <= y@.len(),
            texts(x@) == ca,
            texts(y@) == cb,
            ca.len() == x@.len(),
            cb.len() == y@.len(),
            ca == components(a@),
            cb == components(b@),
            components_le(ca, cb) == components_le(ca.skip(i as int), cb.skip(i as int)),
        decreases x@.len() - i,
    {
        assert(texts(x@)[i as int] == x@[i as int]@ && texts(y@)[i as int] == y@[i as int]@);
        if !same_chars(x[i].as_slice(), y[i].as_slice()) {
            return component_at_or_before(&x[i], &y[i]);
        }
        assert(ca.skip(i as int).drop_first() =~= ca.skip(i + 1));
        assert(cb.skip(i as int).drop_first() =~= cb.skip(i + 1));
        i = i + 1;
    }
    i >= x.len()
}

/// Whether two paths have the same components.
pub fn same_path(a: &str, b: &str) -> (r: bool)
    ensures
        r == (components(a@) == components(b@)),
{
    let x = components_of(chars_of(a).as_slice());
    let y = components_of(chars_of(b).as_slice());
    let ghost ca = components(a@);
    let ghost cb = components(b@);
    assert(texts(x@).len() == x@.len() && texts(y@).len() == y@.len());
    if x.len() != y.len() {
        return false;
    }
    let mut i: usize = 0;
    while i < x.len()
        invariant
            i <= x@.len() == y@.len(),
            texts(x@) == ca,
            texts(y@) == cb,
            ca.len() == x@.len(),
            cb.len() == y@.len(),
            ca == components(a@),
            cb == components(b@),
            forall|k: int| 0 <= k < i ==> ca[k] == cb[k],
        decreases x@.len() - i,
    {
        assert(texts(x@)[i as int] == x@[i as int]@ && texts(y@)[i as int] == y@[i as int]@);
        if !same_chars(x[i].as_slice(), y[i].as_slice()) {
            return false;
        }
        i = i + 1;
    }
    assert(ca =~= cb);
    true
}

/// Any two components compare, and the order chains.
proof fn component_order(a: Seq<char>, b: Seq<char>, c: Seq<char>)
    ensures
        component_le(a, b) || component_le(b, a),
        component_le(a, b) && component_le(b, c) ==> component_le(a, c),
        component_le(a, b) && component_le(b, a) ==> a == b,
{
    text_le_total(a, b);
    if component_le(a, b) && component_le(b, c) && kind(a) == kind(b) && kind(b) == kind(c) {
        text_le_transitive(a, b, c);
    }
    if component_le(a, b) && component_le(b, a) {
        text_le_antisymmetric(a, b);
    }
}

/// Any two paths compare.
pub proof fn path_order_is_total(a: Seq<Seq<char>>, b: Seq<Seq<char>>)
    ensures
        components_le(a, b) || components_le(b, a),
    decreases a.len(),
{
    if a.len() > 0 && b.len() > 0 {
        if a[0] == b[0] {
            path_order_is_total(a.drop_first(), b.drop_first());
        } else {
            component_order(a[0], b[0], b[0]);
        }
    }
}

/// The order of paths chains.
pub proof fn path_order_is_transitive(a: Seq<Seq<char>>, b: Seq<Seq<char>>, c: Seq<Seq<char>>)
    requires
        components_le(a, b),
        components_le(b, c),
    ensures
        components_le(a, c),
    decreases a.len(),
{
    if a.len() > 0 {
        component_order(a[0], b[0], c[0]);
        if a[0] == b[0] && b[0] == c[0] {
            path_order_is_transitive(a.drop_first(), b.drop_first(), c.drop_first());
        } else if a[0] == c[0] {
            component_order(b[0], c[0], a[0]);
        }
    }
}

// ---------------------------------------------------------------------------
// Parents
// ---------------------------------------------------------------------------

/// Where the segments of a path begin: behind the root.
pub open spec fn body(p: Seq<char>) -> int {
    if p.len() > 0 && p[0] == '/' {
        1
    } else {
        0
    }
}

/// Where the last segment of `p`, cut at `end`, begins.
pub open spec fn segment_start(p: Seq<char>, end: int) -> int
    decreases end,
{
    if end <= body(p) {
        body(p)
    } else if p[end - 1] == '/' {
        end
    } else {
        segment_start(p, end - 1)
    }
}

/// Whether the segment of `p` from `s` to `end` is no component: empty, or a dot
/// that does not begin the path.
pub open spec fn is_filler(p: Seq<char>, s: int, end: int) -> bool {
    s == end || p.subrange(s, end) == seq!['.'] && s > 0
}

/// The end of the last component of `p`, cut at `end`: trailing slashes and dots are
/// passed over. The body's start where there is no component.
pub open spec fn settled(p: Seq<char>, end: int) -> int
    decreases end,
    via settled_decreases
{
    let s = segment_start(p, end);
    if end <= body(p) {
        body(p)
    } else if is_filler(p, s, end) {
        if s <= body(p) {
            body(p)
        } else {
            settled(p, s - 1)
        }
    } else {
        end
    }
}

#[via_fn]
proof fn settled_decreases(p: Seq<char>, end: int) {
    if end > body(p) {
        segment_start_bound(p, end);
    }
}

proof fn segment_start_bound(p: Seq<char>, end: int)
    requires
        end >= body(p),
    ensures
        body(p) <= segment_start(p, end) <= end,
    decreases end,
{
    if end > body(p) && p[end - 1] != '/' {
        segment_start_bound(p, end - 1);
    }
}

/// The path without its last component: none where it has no component.
pub open spec fn parent_of(p: Seq<char>) -> Option<Seq<char>> {
    let end = settled(p, p.len() as int);
    if end <= body(p) {
        None
    } else {
        let s = segment_start(p, end);
        Some(
            p.take(
                if s <= body(p) {
                    body(p)
                } else {
                    settled(p, s - 1)
                },
            ),
        )
    }
}

fn find_segment(p: &[char], end: usize) -> (s: usize)
    requires
        body(p@) <= end <= p@.len(),
    ensures
        s == segment_start(p@, end as int),
        body(p@) <= s <= end,
{
    let low: usize = if p.len() > 0 && p[0] == '/' {
        1
    } else {
        0
    };
    let mut s: usize = end;
    while s > low && p[s - 1] != '/'
        invariant
            low == body(p@),
            low <= s <= end <= p@.len(),
            segment_start(p@, end as int) == segment_start(p@, s as int),
        decreases s,
    {
        s = s - 1;
    }
    s
}

fn settle(p: &[char], end: usize) -> (r: usize)
    requires
        body(p@) <= end <= p@.len(),
    ensures
        r == settled(p@, end as int),
        body(p@) <= r <= end,
{
    let low: usize = if p.len() > 0 && p[0] == '/' {
        1
    } else {
        0
    };
    let mut e: usize = end;
    while e > low
        invariant
            low == body(p@),
            low <= e <= end <= p@.len(),
            settled(p@, end as int) == settled(p@, e as int),
        ensures
            low <= e <= end,
            settled(p@, end as int) == e,
        decreases e,
    {
        let s: usize = find_segment(p, e);
        proof {
            if e - s == 1 && p@[s as int] == '.' {
                assert(p@.subrange(s as int, e as int) =~= seq!['.']);
            }
            if e - s != 1 || p@[s as int] != '.' {
                assert(p@.subrange(s as int, e as int) != seq!['.']) by {
                    if p@.subrange(s as int, e as int) == seq!['.'] {
                        assert(p@.subrange(s as int, e as int).len() == 1);
                        assert(p@.subrange(s as int, e as int)[0] == p@[s as int]);
                    }
                }
            }
        }
        let filler = s == e || (e - s == 1 && p[s] == '.' && s > 0);
        assert(filler == is_filler(p@, s as int, e as int));
        if !filler {
            break;
        }
        if s > low {
            e = s - 1;
        } else {
            assert(settled(p@, low as int) == low);
            e = low;
        }
    }
    e
}

/// The path without its last component: `None` where it has no component.
pub fn parent(p: &str) -> (r: Option<String>)
    ensures
        r is Some == (parent_of(p@) is Some),
        r matches Some(s) ==> parent_of(p@) == Some(s@),
{
    let c = chars_of(p);
    let chars = c.as_slice();
    let low: usize = if chars.len() > 0 && chars[0] == '/' {
        1
    } else {
        0
    };
    let end: usize = settle(chars, chars.len());
    if end <= low {
        return None;
    }
    let s: usize = find_segment(chars, end);
    let cut: usize = if s > low {
        settle(chars, s - 1)
    } else {
        low
    };
    let r = string_of(slice_subrange(chars, 0, cut));
    assert(r@ =~= p@.take(cut as int));
    Some(r)
}

} // verus!

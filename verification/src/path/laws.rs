//! What paths are made of, and how they are taken apart again.

use vstd::prelude::*;

use crate::path::{
    body, components, head, is_filler, is_named, joined, kind, parent_of, segment_start, settled,
    under,
};
use crate::scan::laws::{parts_are_read_back, splitting_loses_nothing, with_between};
use crate::scan::split;
use crate::serve::beside;

verus! {

/// A name below a directory stands behind it, with one slash between them; below no
/// directory it stands alone, and one that starts at the root replaces it.
pub proof fn a_name_stands_below(base: Seq<char>, name: Seq<char>)
    ensures
        name.len() > 0 && name[0] == '/' ==> joined(base, name) == name,
        (name.len() == 0 || name[0] != '/') && base.len() == 0 ==> joined(base, name) == name,
        (name.len() == 0 || name[0] != '/') && base.len() > 0 && base.last() == '/' ==> joined(
            base,
            name,
        ) == base + name,
        (name.len() == 0 || name[0] != '/') && base.len() > 0 && base.last() != '/' ==> joined(
            base,
            name,
        ) == base + seq!['/'] + name,
{
    reveal_strlit("/");
    assert("/"@ =~= seq!['/']);
    if base.len() == 0 {
        assert(base + name =~= name);
    }
}

/// One name of a path.
pub open spec fn is_name(name: Seq<char>) -> bool {
    name.len() > 0 && !name.contains('/') && name != seq!['.']
}

proof fn segment_of_name(p: Seq<char>, end: int, k: int)
    requires
        body(p) <= k <= end <= p.len(),
        k > 0,
        p[k - 1] == '/',
        forall|i: int| k <= i < end ==> #[trigger] p[i] != '/',
    ensures
        segment_start(p, end) == k,
    decreases end,
{
    if end > k {
        assert(p[end - 1] != '/');
        segment_of_name(p, end - 1, k);
    } else if end <= body(p) {
    }
}

proof fn segment_is_before(p: Seq<char>, end: int)
    requires
        body(p) <= end <= p.len(),
    ensures
        body(p) <= segment_start(p, end) <= end,
    decreases end,
{
    if end > body(p) && p[end - 1] != '/' {
        segment_is_before(p, end - 1);
    }
}

/// The parent of a name below a directory is the directory, and the name lies under
/// it.
pub proof fn the_parent_is_the_directory(base: Seq<char>, name: Seq<char>)
    requires
        is_name(name),
        base.len() > 0,
        base.last() != '/',
        base.last() != '.',
    ensures
        parent_of(base + seq!['/'] + name) == Some(base),
        under(base + seq!['/'] + name, base),
{
    let p = base + seq!['/'] + name;
    let n = p.len() as int;
    let b = base.len() as int;
    assert(p[0] == base[0]);
    assert(p[b - 1] == base.last());
    assert(p[b] == '/');
    assert forall|i: int| b + 1 <= i < n implies #[trigger] p[i] != '/' by {
        assert(p[i] == name[i - b - 1]);
        assert(name.contains(p[i]));
    }
    segment_of_name(p, n, b + 1);
    assert(p.subrange(b + 1, n) =~= name);
    assert(settled(p, n) == n);
    segment_is_before(p, b - 1);
    assert(segment_start(p, b) == segment_start(p, b - 1));
    let s = segment_start(p, b);
    if is_filler(p, s, b) {
        assert(p.subrange(s, b).last() == p[b - 1]);
    }
    assert(settled(p, b) == b);
    assert(p.take(b) =~= base);
    one_name_more(base, name);
    assert(components(base).is_prefix_of(components(p))) by {
        assert(components(p).subrange(0, components(base).len() as int) =~= components(base));
    }
}

proof fn between_push(parts: Seq<Seq<char>>, c: char, x: Seq<char>)
    requires
        parts.len() > 0,
    ensures
        with_between(parts.push(x), c) == with_between(parts, c) + seq![c] + x,
    decreases parts.len(),
{
    let all = parts.push(x);
    reveal_with_fuel(with_between, 2);
    if parts.len() == 1 {
        assert(all.drop_first() =~= seq![x]);
    } else {
        assert(all.drop_first() =~= parts.drop_first().push(x));
        between_push(parts.drop_first(), c, x);
        assert(parts[0] + seq![c] + (with_between(parts.drop_first(), c) + seq![c] + x)
            =~= parts[0] + seq![c] + with_between(parts.drop_first(), c) + seq![c] + x);
    }
}

/// A name more in a path is a component more, at its end.
pub proof fn one_name_more(base: Seq<char>, name: Seq<char>)
    requires
        is_name(name),
        base.len() > 0,
    ensures
        components(base + seq!['/'] + name) == components(base).push(name),
{
    reveal(Seq::filter);
    let p = base + seq!['/'] + name;
    let parts = split(base, '/');
    splitting_loses_nothing(base, '/');
    between_push(parts, '/', name);
    let all = parts.push(name);
    assert forall|i: int| 0 <= i < all.len() implies !(#[trigger] all[i]).contains('/') by {
        if i < parts.len() {
            assert(!parts[i].contains('/'));
        }
    }
    parts_are_read_back(all, '/');
    assert(split(p, '/') == all);
    let keep = |s: Seq<char>| is_named(s);
    assert(all.drop_last() =~= parts);
    assert(is_named(name));
    assert(all.filter(keep) =~= parts.filter(keep).push(name));
    assert(p[0] == base[0]);
    assert(all[0] == parts[0]);
    assert(head(p) == head(base));
    assert(components(p) =~= components(base).push(name));
}

/// A file beside another stands in its directory, under its own name.
pub proof fn beside_is_in_the_same_directory(base: Seq<char>, name: Seq<char>, other: Seq<char>)
    requires
        is_name(name),
        name != seq!['.', '.'],
        is_name(other),
        base.len() > 0,
        base.last() != '/',
        base.last() != '.',
    ensures
        beside(base + seq!['/'] + name, other) == base + seq!['/'] + other,
{
    the_parent_is_the_directory(base, name);
    one_name_more(base, name);
    let p = base + seq!['/'] + name;
    assert(components(p).last() == name);
    assert(name != seq!['/']) by {
        if name == seq!['/'] {
            assert(name[0] == '/');
            assert(name.contains('/'));
        }
    }
    assert(kind(name) == 3);
    assert(other[0] != '/') by {
        assert(other.contains(other[0]));
    }
    a_name_stands_below(base, other);
}

/// The root has no parent, nor has nothing; a name at the root has the root, and a
/// name alone has the place it stands in.
pub proof fn parents_at_the_top(name: Seq<char>)
    requires
        is_name(name),
    ensures
        parent_of(seq!['/']) is None,
        parent_of(Seq::<char>::empty()) is None,
        parent_of(seq!['/'] + name) == Some(seq!['/']),
        parent_of(name) == Some(Seq::<char>::empty()),
{
    let root = seq!['/'];
    let p = root + name;
    let n = p.len() as int;
    assert(p[0] == '/');
    assert forall|i: int| 1 <= i < n implies #[trigger] p[i] != '/' by {
        assert(p[i] == name[i - 1]);
        assert(name.contains(p[i]));
    }
    segment_of_name(p, n, 1);
    assert(p.subrange(1, n) =~= name);
    assert(settled(p, n) == n);
    assert(p.take(1) =~= root);
    let m = name.len() as int;
    assert(name[0] != '/') by {
        assert(name.contains(name[0]));
    }
    alone_in_its_segment(name, m);
    assert(name.subrange(0, m) =~= name);
    assert(settled(name, m) == m);
    assert(name.take(0) =~= Seq::<char>::empty());
}

proof fn alone_in_its_segment(name: Seq<char>, end: int)
    requires
        0 <= end <= name.len(),
        name.len() > 0,
        !name.contains('/'),
    ensures
        segment_start(name, end) == 0,
    decreases end,
{
    assert(name.contains(name[0]));
    if end > 0 {
        assert(name.contains(name[end - 1]));
        alone_in_its_segment(name, end - 1);
    }
}

/// The components of a path are the root where it starts there, a dot where it
/// starts with one, and otherwise its names: nothing empty, and no other dot.
pub proof fn components_are_the_names(p: Seq<char>)
    ensures
        p.len() > 0 && p[0] == '/' ==> components(p).len() > 0 && components(p)[0] == seq!['/'],
        forall|k: int|
            0 < k < components(p).len() ==> (#[trigger] components(p)[k]).len() > 0
                && components(p)[k] != seq!['.'],
        forall|i: int|
            0 <= i < split(p, '/').len() && (#[trigger] split(p, '/')[i]).len() > 0 && split(
                p,
                '/',
            )[i] != seq!['.'] ==> components(p).contains(split(p, '/')[i]),
{
    broadcast use vstd::seq_lib::group_filter_ensures;

    let keep = |s: Seq<char>| is_named(s);
    let segs = split(p, '/');
    let kept = segs.filter(keep);
    let h = head(p);
    assert(components(p) == h + kept);
    assert forall|k: int| 0 < k < components(p).len() implies (#[trigger] components(p)[k]).len()
        > 0 && components(p)[k] != seq!['.'] by {
        assert(components(p)[k] == kept[k - h.len()]);
        assert(keep(kept[k - h.len()]));
    }
    assert forall|i: int|
        0 <= i < segs.len() && (#[trigger] segs[i]).len() > 0 && segs[i]
            != seq!['.'] implies components(p).contains(segs[i]) by {
        assert(keep(segs[i]));
        assert(kept.contains(segs[i]));
        let k = choose|k: int| 0 <= k < kept.len() && kept[k] == segs[i];
        assert(components(p)[h.len() + k] == segs[i]);
    }
}

} // verus!

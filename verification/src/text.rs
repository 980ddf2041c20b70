//! Text as sequences of characters: numbers in decimal, lines, trimming and
//! prefixes, each stated over the characters a string holds.

use vstd::prelude::*;

use vstd::string::*;

verus! {

/// `String::push` appends one character.
pub assume_specification[ String::push ](s: &mut String, c: char)
    ensures
        final(s)@ == old(s)@.push(c),
;

// ---------------------------------------------------------------------------
// Conversions
// ---------------------------------------------------------------------------

/// The characters of `s`, in order.
pub fn chars_of(s: &str) -> (r: Vec<char>)
    ensures
        r@ == s@,
{
    let mut out: Vec<char> = Vec::new();
    for c in it: s.chars()
        invariant
            it.seq() == s@,
            out@ == s@.take(it.index() as int),
    {
        out.push(c);
        assert(s@.take(it.index() + 1) =~= s@.take(it.index() as int).push(s@[it.index() as int]));
    }
    assert(s@.take(s@.len() as int) =~= s@);
    out
}

/// The string that holds exactly `chars`.
pub fn string_of(chars: &[char]) -> (r: String)
    ensures
        r@ == chars@,
{
    let mut out = String::new();
    let mut i: usize = 0;
    while i < chars.len()
        invariant
            i <= chars@.len(),
            out@ == chars@.take(i as int),
        decreases chars@.len() - i,
    {
        out.push(chars[i]);
        assert(chars@.take(i + 1) =~= chars@.take(i as int).push(chars@[i as int]));
        i = i + 1;
    }
    assert(chars@.take(chars@.len() as int) =~= chars@);
    out
}

/// A text that may be missing, by its characters.
pub open spec fn given(t: Option<&str>) -> Option<Seq<char>> {
    match t {
        Some(s) => Some(s@),
        None => None,
    }
}

/// The texts of a list of strings.
pub open spec fn names(v: Seq<String>) -> Seq<Seq<char>> {
    v.map_values(|s: String| s@)
}

/// An owned copy of `s`.
pub fn owned(s: &str) -> (r: String)
    ensures
        r@ == s@,
{
    String::from_str(s)
}

/// Whether two character slices are the same text.
pub fn same_chars(a: &[char], b: &[char]) -> (r: bool)
    ensures
        r == (a@ == b@),
{
    if a.len() != b.len() {
        return false;
    }
    let mut i: usize = 0;
    while i < a.len()
        invariant
            i <= a@.len(),
            a@.len() == b@.len(),
            forall|k: int| 0 <= k < i ==> a@[k] == b@[k],
        decreases a@.len() - i,
    {
        if a[i] != b[i] {
            assert(a@[i as int] != b@[i as int]);
            return false;
        }
        i = i + 1;
    }
    assert(a@ =~= b@);
    true
}

/// Whether two strings are the same text.
pub fn same(a: &str, b: &str) -> (r: bool)
    ensures
        r == (a@ == b@),
{
    let x = chars_of(a);
    let y = chars_of(b);
    same_chars(x.as_slice(), y.as_slice())
}

// ---------------------------------------------------------------------------
// Order
// ---------------------------------------------------------------------------

/// Text order: by the first character that differs, a prefix first. On scalar
/// values this is the order of the UTF-8 bytes.
pub open spec fn text_le(a: Seq<char>, b: Seq<char>) -> bool
    decreases a.len(),
{
    if a.len() == 0 {
        true
    } else if b.len() == 0 {
        false
    } else if a[0] == b[0] {
        text_le(a.drop_first(), b.drop_first())
    } else {
        a[0] < b[0]
    }
}

/// `a` sorts before `b`.
pub open spec fn sorts_before(a: Seq<char>, b: Seq<char>) -> bool {
    text_le(a, b) && a != b
}

/// Whether `a` sorts at or before `b`.
pub fn text_at_or_before(a: &str, b: &str) -> (r: bool)
    ensures
        r == text_le(a@, b@),
{
    let x = chars_of(a);
    let y = chars_of(b);
    let mut i: usize = 0;
    assert(a@.skip(0) =~= a@ && b@.skip(0) =~= b@);
    while i < x.len() && i < y.len()
        invariant
            x@ == a@,
            y@ == b@,
            i <= x@.len(),
            i <= y@.len(),
            text_le(a@, b@) == text_le(a@.skip(i as int), b@.skip(i as int)),
        decreases x@.len() - i,
    {
        if x[i] != y[i] {
            return x[i] < y[i];
        }
        assert(a@.skip(i as int).drop_first() =~= a@.skip(i + 1));
        assert(b@.skip(i as int).drop_first() =~= b@.skip(i + 1));
        i = i + 1;
    }
    i >= x.len()
}

/// Text order is reflexive.
pub proof fn text_le_reflexive(a: Seq<char>)
    ensures
        text_le(a, a),
    decreases a.len(),
{
    if a.len() > 0 {
        text_le_reflexive(a.drop_first());
    }
}

/// Text order is transitive.
pub proof fn text_le_transitive(a: Seq<char>, b: Seq<char>, c: Seq<char>)
    requires
        text_le(a, b),
        text_le(b, c),
    ensures
        text_le(a, c),
    decreases a.len(),
{
    if a.len() > 0 && b.len() > 0 && c.len() > 0 && a[0] == b[0] && b[0] == c[0] {
        text_le_transitive(a.drop_first(), b.drop_first(), c.drop_first());
    }
}

/// Any two texts compare.
pub proof fn text_le_total(a: Seq<char>, b: Seq<char>)
    ensures
        text_le(a, b) || text_le(b, a),
    decreases a.len(),
{
    if a.len() > 0 && b.len() > 0 && a[0] == b[0] {
        text_le_total(a.drop_first(), b.drop_first());
    }
}

/// What sorts before something sorts before all that follows it.
pub proof fn sorts_before_transitive(a: Seq<char>, b: Seq<char>, c: Seq<char>)
    requires
        sorts_before(a, b),
        text_le(b, c),
    ensures
        sorts_before(a, c),
{
    text_le_transitive(a, b, c);
    if a == c {
        text_le_antisymmetric(a, b);
    }
}

/// Two texts that sort before each other are the same text.
pub proof fn text_le_antisymmetric(a: Seq<char>, b: Seq<char>)
    requires
        text_le(a, b),
        text_le(b, a),
    ensures
        a == b,
    decreases a.len(),
{
    if a.len() > 0 && b.len() > 0 {
        text_le_antisymmetric(a.drop_first(), b.drop_first());
        assert(a =~= seq![a[0]] + a.drop_first());
        assert(b =~= seq![b[0]] + b.drop_first());
    } else {
        assert(a =~= b);
    }
}

/// A list of names without repetition that holds exactly a set's members, in text
/// order.
pub open spec fn lists(v: Seq<Seq<char>>, s: Set<Seq<char>>) -> bool {
    &&& forall|x: Seq<char>| #[trigger] s.contains(x) <==> v.contains(x)
    &&& forall|i: int, j: int| 0 <= i < j < v.len() ==> #[trigger] v[i] != #[trigger] v[j]
    &&& forall|i: int, j: int|
        0 <= i < j < v.len() ==> text_le(#[trigger] v[i], #[trigger] v[j])
}

proof fn rest_lists(v: Seq<Seq<char>>, s: Set<Seq<char>>)
    requires
        lists(v, s),
        v.len() > 0,
    ensures
        lists(v.drop_first(), s.remove(v[0])),
{
    let w = v.drop_first();
    assert forall|x: Seq<char>| #[trigger] s.remove(v[0]).contains(x) <==> w.contains(x) by {
        if s.remove(v[0]).contains(x) {
            assert(v.contains(x));
            let i = choose|i: int| 0 <= i < v.len() && v[i] == x;
            assert(w[i - 1] == x);
        }
        if w.contains(x) {
            let i = choose|i: int| 0 <= i < w.len() && w[i] == x;
            assert(v[i + 1] == x);
            assert(v.contains(x));
            assert(v[0] != v[i + 1]);
        }
    }
    assert forall|i: int, j: int| 0 <= i < j < w.len() implies #[trigger] w[i] != #[trigger] w[j] by {
        assert(v[i + 1] != v[j + 1]);
    }
    assert forall|i: int, j: int| 0 <= i < j < w.len() implies text_le(
        #[trigger] w[i],
        #[trigger] w[j],
    ) by {
        assert(text_le(v[i + 1], v[j + 1]));
    }
}

/// Two lists of the same set are the same list: its size and order are fixed.
pub proof fn listing_is_unique(a: Seq<Seq<char>>, b: Seq<Seq<char>>, s: Set<Seq<char>>)
    requires
        lists(a, s),
        lists(b, s),
    ensures
        a == b,
    decreases a.len(),
{
    if a.len() == 0 {
        if b.len() > 0 {
            assert(b.contains(b[0]));
            assert(s.contains(b[0]));
            assert(a.contains(b[0]));
        }
        assert(a =~= b);
    } else {
        assert(a.contains(a[0]));
        assert(s.contains(a[0]));
        assert(b.contains(a[0]));
        let j = choose|j: int| 0 <= j < b.len() && b[j] == a[0];
        assert(b.contains(b[0]));
        assert(s.contains(b[0]));
        assert(a.contains(b[0]));
        let i = choose|i: int| 0 <= i < a.len() && a[i] == b[0];
        text_le_reflexive(a[0]);
        assert(text_le(a[0], a[i]));
        assert(text_le(b[0], b[j])) by {
            text_le_reflexive(b[0]);
        }
        text_le_antisymmetric(a[0], b[0]);
        let s1 = s.remove(a[0]);
        let a1 = a.drop_first();
        let b1 = b.drop_first();
        rest_lists(a, s);
        rest_lists(b, s);
        listing_is_unique(a1, b1, s1);
        assert(a =~= seq![a[0]] + a1);
        assert(b =~= seq![b[0]] + b1);
    }
}

/// The texts of a list, sorted, each once.
pub fn sorted_set(v: &[String]) -> (r: Vec<String>)
    ensures
        lists(names(r@), names(v@).to_set()),
{
    let ghost all = names(v@);
    let mut out: Vec<String> = Vec::new();
    let mut i: usize = 0;
    assert(lists(names(out@), all.take(0).to_set()));
    while i < v.len()
        invariant
            i <= v@.len(),
            all == names(v@),
            lists(names(out@), all.take(i as int).to_set()),
        decreases v@.len() - i,
    {
        let ghost was = names(out@);
        let ghost x = all[i as int];
        let mut p: usize = 0;
        while p < out.len() && !text_at_or_before(v[i].as_str(), out[p].as_str())
            invariant
                p <= out@.len(),
                i < v@.len(),
                all == names(v@),
                x == all[i as int],
                was == names(out@),
                forall|k: int| 0 <= k < p ==> !text_le(x, #[trigger] was[k]),
            ensures
                p <= out@.len(),
                was == names(out@),
                forall|k: int| 0 <= k < p ==> !text_le(x, #[trigger] was[k]),
                p < out@.len() ==> text_le(x, was[p as int]),
            decreases out@.len() - p,
        {
            p = p + 1;
        }
        let known = p < out.len() && same(out[p].as_str(), v[i].as_str());
        if !known {
            out.insert(p, owned(v[i].as_str()));
        }
        proof {
            assert(names(out@) =~= if known {
                was
            } else {
                was.insert(p as int, x)
            });
            set_grows(was, all, i as int, p as int, known);
        }
        i = i + 1;
    }
    assert(all.take(i as int) =~= all);
    out
}

proof fn set_grows(was: Seq<Seq<char>>, all: Seq<Seq<char>>, i: int, p: int, known: bool)
    requires
        0 <= i < all.len(),
        0 <= p <= was.len(),
        lists(was, all.take(i).to_set()),
        forall|k: int| 0 <= k < p ==> !text_le(all[i], #[trigger] was[k]),
        p < was.len() ==> text_le(all[i], was[p]),
        known == (p < was.len() && was[p] == all[i]),
    ensures
        lists(
            if known {
                was
            } else {
                was.insert(p, all[i])
            },
            all.take(i + 1).to_set(),
        ),
{
    let x = all[i];
    let before = all.take(i);
    let after = all.take(i + 1);
    let now = if known {
        was
    } else {
        was.insert(p, x)
    };
    assert(after =~= before.push(x));
    assert(after[i] == x);
    assert forall|y: Seq<char>| #[trigger] after.to_set().contains(y) <==> now.contains(y) by {
        if after.contains(y) {
            let k = choose|k: int| 0 <= k < after.len() && after[k] == y;
            if k == i {
                assert(now[p] == y);
            } else {
                assert(before[k] == y);
                assert(before.to_set().contains(y));
                let m = choose|m: int| 0 <= m < was.len() && was[m] == y;
                if known || m < p {
                    assert(now[m] == y);
                } else {
                    assert(now[m + 1] == y);
                }
            }
        }
        if now.contains(y) {
            let m = choose|m: int| 0 <= m < now.len() && now[m] == y;
            if !known && m == p {
                assert(after[i] == y);
            } else {
                let w = if known || m < p {
                    m
                } else {
                    m - 1
                };
                assert(was[w] == y);
                assert(was.contains(y));
                assert(before.to_set().contains(y));
                let k = choose|k: int| 0 <= k < before.len() && before[k] == y;
                assert(after[k] == y);
            }
        }
    }
    if !known {
        assert forall|k: int| 0 <= k < was.len() implies (if k < p {
            text_le(#[trigger] was[k], x)
        } else {
            text_le(x, was[k])
        }) && was[k] != x by {
            text_le_total(was[k], x);
            text_le_reflexive(x);
            if k > p {
                assert(text_le(was[p], was[k]));
                text_le_transitive(x, was[p], was[k]);
                if was[k] == x {
                    text_le_antisymmetric(x, was[p]);
                }
            }
        }
        assert forall|a: int, b: int| 0 <= a < b < now.len() implies text_le(
            #[trigger] now[a],
            #[trigger] now[b],
        ) && now[a] != now[b] by {
            let wa = if a < p {
                a
            } else {
                a - 1
            };
            let wb = if b < p {
                b
            } else {
                b - 1
            };
            if a != p && b != p {
                assert(text_le(was[wa], was[wb]) && was[wa] != was[wb]);
            } else if a == p {
                assert(text_le(x, was[wb]) && was[wb] != x);
            } else {
                assert(text_le(was[wa], x) && was[wa] != x);
            }
        }
    }
}

// ---------------------------------------------------------------------------
// Decimal numbers
// ---------------------------------------------------------------------------

/// The character of a decimal digit.
pub open spec fn digit(d: int) -> char {
    if d == 0 {
        '0'
    } else if d == 1 {
        '1'
    } else if d == 2 {
        '2'
    } else if d == 3 {
        '3'
    } else if d == 4 {
        '4'
    } else if d == 5 {
        '5'
    } else if d == 6 {
        '6'
    } else if d == 7 {
        '7'
    } else if d == 8 {
        '8'
    } else {
        '9'
    }
}

/// A natural number in decimal, without leading zeros.
pub open spec fn dec_nat(n: nat) -> Seq<char>
    decreases n,
{
    if n < 10 {
        seq![digit(n as int)]
    } else {
        dec_nat(n / 10).push(digit((n % 10) as int))
    }
}

/// An integer in decimal, with a minus sign before a negative one.
pub open spec fn dec(n: int) -> Seq<char> {
    if n < 0 {
        seq!['-'] + dec_nat((-n) as nat)
    } else {
        dec_nat(n as nat)
    }
}

/// `n` copies of `'0'`.
pub open spec fn zeros(n: int) -> Seq<char> {
    Seq::new(if n < 0 { 0 } else { n as nat }, |i: int| '0')
}

/// An integer in decimal, filled up with zeros behind its sign until it takes
/// `width` characters, the sign counted.
pub open spec fn dec_padded(n: int, width: int) -> Seq<char> {
    if n < 0 {
        seq!['-'] + zeros(width - 1 - dec_nat((-n) as nat).len()) + dec_nat((-n) as nat)
    } else {
        zeros(width - dec_nat(n as nat).len()) + dec_nat(n as nat)
    }
}

fn digit_char(d: u64) -> (c: char)
    requires
        d < 10,
    ensures
        c == digit(d as int),
{
    if d == 0 {
        '0'
    } else if d == 1 {
        '1'
    } else if d == 2 {
        '2'
    } else if d == 3 {
        '3'
    } else if d == 4 {
        '4'
    } else if d == 5 {
        '5'
    } else if d == 6 {
        '6'
    } else if d == 7 {
        '7'
    } else if d == 8 {
        '8'
    } else {
        '9'
    }
}

/// A number in decimal.
pub fn dec_u64(n: u64) -> (s: String)
    ensures
        s@ == dec(n as int),
    decreases n,
{
    if n < 10 {
        let mut s = String::new();
        s.push(digit_char(n));
        assert(s@ =~= seq![digit(n as int)]);
        s
    } else {
        let mut s = dec_u64(n / 10);
        s.push(digit_char(n % 10));
        s
    }
}

/// The distance of `n` from zero.
pub fn magnitude(n: i64) -> (r: u64)
    ensures
        r == if n < 0 { -(n as int) } else { n as int },
{
    if n < 0 {
        (-(n + 1)) as u64 + 1
    } else {
        n as u64
    }
}

/// A signed number in decimal.
pub fn dec_i64(n: i64) -> (s: String)
    ensures
        s@ == dec(n as int),
{
    let digits = dec_u64(magnitude(n));
    if n < 0 {
        let mut s = String::new();
        s.push('-');
        s.append(digits.as_str());
        assert(s@ =~= seq!['-'] + digits@);
        s
    } else {
        digits
    }
}

/// A count in decimal.
pub fn dec_usize(n: usize) -> (s: String)
    ensures
        s@ == dec(n as int),
{
    dec_u64(n as u64)
}

proof fn dec_nat_len_bound(n: nat, k: nat)
    requires
        n <= 0xffff_ffff_ffff_ffff,
        k <= 20,
        n < pow10(k),
    ensures
        dec_nat(n).len() <= if k == 0 { 1 } else { k },
    decreases k,
{
    if n >= 10 {
        assert(k > 0);
        assert(n / 10 < pow10((k - 1) as nat));
        dec_nat_len_bound(n / 10, (k - 1) as nat);
        if k == 1 {
            assert(pow10(1) == 10) by {
                reveal_with_fuel(pow10, 2);
            }
        }
    }
}

spec fn pow10(k: nat) -> nat
    decreases k,
{
    if k == 0 {
        1
    } else {
        10 * pow10((k - 1) as nat)
    }
}

/// A number in decimal, filled up with zeros to `width` characters.
pub fn dec_i64_padded(n: i64, width: usize) -> (s: String)
    requires
        width <= 32,
    ensures
        s@ == dec_padded(n as int, width as int),
{
    let digits = dec_u64(magnitude(n));
    proof {
        assert(0xffff_ffff_ffff_ffff < pow10(20)) by {
            reveal_with_fuel(pow10, 21);
        }
        dec_nat_len_bound(magnitude_of(n), 20);
    }
    let taken: usize = digits.as_str().unicode_len();
    let room: usize = if n < 0 && width > 0 {
        width - 1
    } else if n < 0 {
        0
    } else {
        width
    };
    let mut s = String::new();
    if n < 0 {
        s.push('-');
    }
    let ghost head = s@;
    let mut filled: usize = taken;
    while filled < room
        invariant
            taken == digits@.len(),
            taken <= 20,
            room <= 32,
            taken <= filled,
            filled <= room || filled == taken,
            s@ == head + zeros(filled - taken),
        decreases room - filled,
    {
        s.push('0');
        assert(head + zeros(filled + 1 - taken) =~= (head + zeros(filled - taken)).push('0'));
        filled = filled + 1;
    }
    s.append(digits.as_str());
    proof {
        if n < 0 {
            assert(head =~= seq!['-']);
            assert(s@ =~= seq!['-'] + zeros(width - 1 - digits@.len()) + digits@);
        } else {
            assert(s@ =~= zeros(width - digits@.len()) + digits@);
        }
    }
    s
}

spec fn magnitude_of(n: i64) -> nat {
    if n < 0 {
        (-(n as int)) as nat
    } else {
        n as nat
    }
}

/// Texts are ordered by the first character in which they differ, as it is numbered;
/// one that the other goes on from comes first.
pub proof fn texts_are_ordered_by_their_first_difference(
    both: Seq<char>,
    c: char,
    d: char,
    more: Seq<char>,
    rest: Seq<char>,
)
    requires
        (c as u32) < (d as u32),
    ensures
        text_le(both + seq![c] + more, both + seq![d] + rest),
        !text_le(both + seq![d] + rest, both + seq![c] + more),
        text_le(both, both + more),
        more.len() > 0 ==> !text_le(both + more, both),
    decreases both.len(),
{
    let a = both + seq![c] + more;
    let b = both + seq![d] + rest;
    if both.len() > 0 {
        let tail = both.drop_first();
        texts_are_ordered_by_their_first_difference(tail, c, d, more, rest);
        assert(a.drop_first() =~= tail + seq![c] + more);
        assert(b.drop_first() =~= tail + seq![d] + rest);
        assert((both + more).drop_first() =~= tail + more);
        assert(a[0] == both[0] && b[0] == both[0]);
    } else {
        assert(a[0] == c && b[0] == d);
        assert(both + more =~= more);
    }
}

} // verus!

//! Scanning text: trimming, prefixes, lines, words, fields and numbers.

use vstd::prelude::*;
use vstd::slice::{slice_subrange, slice_to_vec};

pub mod laws;

verus! {

/// A character with the Unicode `White_Space` property.
pub open spec fn is_space(c: char) -> bool {
    ||| '\u{9}' <= c <= '\u{d}'
    ||| c == ' '
    ||| c == '\u{85}'
    ||| c == '\u{a0}'
    ||| c == '\u{1680}'
    ||| '\u{2000}' <= c <= '\u{200a}'
    ||| c == '\u{2028}'
    ||| c == '\u{2029}'
    ||| c == '\u{202f}'
    ||| c == '\u{205f}'
    ||| c == '\u{3000}'
}

/// Whether `c` is white space.
pub fn space(c: char) -> (r: bool)
    ensures
        r == is_space(c),
{
    ('\u{9}' <= c && c <= '\u{d}') || c == ' ' || c == '\u{85}' || c == '\u{a0}' || c == '\u{1680}'
        || ('\u{2000}' <= c && c <= '\u{200a}') || c == '\u{2028}' || c == '\u{2029}' || c
        == '\u{202f}' || c == '\u{205f}' || c == '\u{3000}'
}

/// `s` without its leading white space.
pub open spec fn trim_start(s: Seq<char>) -> Seq<char>
    decreases s.len(),
{
    if s.len() > 0 && is_space(s[0]) {
        trim_start(s.drop_first())
    } else {
        s
    }
}

/// `s` without its trailing white space.
pub open spec fn trim_end(s: Seq<char>) -> Seq<char>
    decreases s.len(),
{
    if s.len() > 0 && is_space(s.last()) {
        trim_end(s.drop_last())
    } else {
        s
    }
}

/// `s` without white space at either end.
pub open spec fn trim(s: Seq<char>) -> Seq<char> {
    trim_end(trim_start(s))
}

/// `s` without the characters of `set` at its end.
pub open spec fn trim_end_of(s: Seq<char>, set: Seq<char>) -> Seq<char>
    decreases s.len(),
{
    if s.len() > 0 && set.contains(s.last()) {
        trim_end_of(s.drop_last(), set)
    } else {
        s
    }
}

/// `s` without the characters of `set` at its start.
pub open spec fn trim_start_of(s: Seq<char>, set: Seq<char>) -> Seq<char>
    decreases s.len(),
{
    if s.len() > 0 && set.contains(s[0]) {
        trim_start_of(s.drop_first(), set)
    } else {
        s
    }
}

/// `s` without the characters of `set` at either end.
pub open spec fn trim_of(s: Seq<char>, set: Seq<char>) -> Seq<char> {
    trim_end_of(trim_start_of(s, set), set)
}

/// `s` without white space at its start.
pub fn trimmed_start<'a>(s: &'a [char]) -> (r: &'a [char])
    ensures
        r@ == trim_start(s@),
{
    let mut i: usize = 0;
    assert(s@.skip(0) =~= s@);
    while i < s.len() && space(s[i])
        invariant
            i <= s@.len(),
            trim_start(s@) == trim_start(s@.skip(i as int)),
        decreases s@.len() - i,
    {
        assert(s@.skip(i as int).drop_first() =~= s@.skip(i + 1));
        i = i + 1;
    }
    let r = slice_subrange(s, i, s.len());
    assert(r@ =~= s@.skip(i as int));
    r
}

/// `s` without white space at its end.
pub fn trimmed_end<'a>(s: &'a [char]) -> (r: &'a [char])
    ensures
        r@ == trim_end(s@),
{
    let mut n: usize = s.len();
    assert(s@.take(n as int) =~= s@);
    while n > 0 && space(s[n - 1])
        invariant
            n <= s@.len(),
            trim_end(s@) == trim_end(s@.take(n as int)),
        decreases n,
    {
        assert(s@.take(n as int).drop_last() =~= s@.take(n - 1));
        n = n - 1;
    }
    let r = slice_subrange(s, 0, n);
    assert(r@ =~= s@.take(n as int));
    r
}

/// `s` without white space at either end.
pub fn trimmed<'a>(s: &'a [char]) -> (r: &'a [char])
    ensures
        r@ == trim(s@),
{
    trimmed_end(trimmed_start(s))
}

/// Whether `set` holds `c`.
pub fn holds(set: &[char], c: char) -> (r: bool)
    ensures
        r == set@.contains(c),
{
    let mut i: usize = 0;
    while i < set.len()
        invariant
            i <= set@.len(),
            forall|k: int| 0 <= k < i ==> set@[k] != c,
        decreases set@.len() - i,
    {
        if set[i] == c {
            assert(set@[i as int] == c);
            return true;
        }
        i = i + 1;
    }
    false
}

/// `s` without the characters of `set` at its end.
pub fn trimmed_end_of<'a>(s: &'a [char], set: &[char]) -> (r: &'a [char])
    ensures
        r@ == trim_end_of(s@, set@),
{
    let mut n: usize = s.len();
    assert(s@.take(n as int) =~= s@);
    while n > 0 && holds(set, s[n - 1])
        invariant
            n <= s@.len(),
            trim_end_of(s@, set@) == trim_end_of(s@.take(n as int), set@),
        decreases n,
    {
        assert(s@.take(n as int).drop_last() =~= s@.take(n - 1));
        n = n - 1;
    }
    let r = slice_subrange(s, 0, n);
    assert(r@ =~= s@.take(n as int));
    r
}

/// `s` without the characters of `set` at its start.
pub fn trimmed_start_of<'a>(s: &'a [char], set: &[char]) -> (r: &'a [char])
    ensures
        r@ == trim_start_of(s@, set@),
{
    let mut i: usize = 0;
    assert(s@.skip(0) =~= s@);
    while i < s.len() && holds(set, s[i])
        invariant
            i <= s@.len(),
            trim_start_of(s@, set@) == trim_start_of(s@.skip(i as int), set@),
        decreases s@.len() - i,
    {
        assert(s@.skip(i as int).drop_first() =~= s@.skip(i + 1));
        i = i + 1;
    }
    let r = slice_subrange(s, i, s.len());
    assert(r@ =~= s@.skip(i as int));
    r
}

/// `s` without the characters of `set` at either end.
pub fn trimmed_of<'a>(s: &'a [char], set: &[char]) -> (r: &'a [char])
    ensures
        r@ == trim_of(s@, set@),
{
    trimmed_end_of(trimmed_start_of(s, set), set)
}

/// What follows `prefix` in `s`, where `s` starts with it.
pub open spec fn after_prefix(s: Seq<char>, prefix: Seq<char>) -> Option<Seq<char>> {
    if prefix.is_prefix_of(s) {
        Some(s.skip(prefix.len() as int))
    } else {
        None
    }
}

/// Whether `s` starts with `prefix`.
pub fn has_prefix(s: &[char], prefix: &[char]) -> (r: bool)
    ensures
        r == prefix@.is_prefix_of(s@),
{
    if prefix.len() > s.len() {
        return false;
    }
    let head = slice_subrange(s, 0, prefix.len());
    crate::text::same_chars(prefix, head)
}

/// What follows `prefix` in `s`, where `s` starts with it.
pub fn strip<'a>(s: &'a [char], prefix: &[char]) -> (r: Option<&'a [char]>)
    ensures
        r is Some == (after_prefix(s@, prefix@) is Some),
        r matches Some(rest) ==> after_prefix(s@, prefix@) == Some(rest@),
{
    if has_prefix(s, prefix) {
        let rest = slice_subrange(s, prefix.len(), s.len());
        assert(rest@ =~= s@.skip(prefix@.len() as int));
        Some(rest)
    } else {
        None
    }
}

/// Where `c` first occurs in `s`; the length of `s` where it does not.
pub open spec fn first_at(s: Seq<char>, c: char) -> int
    decreases s.len(),
{
    if s.len() == 0 {
        0
    } else if s[0] == c {
        0
    } else {
        1 + first_at(s.drop_first(), c)
    }
}

/// `first_at` is the least index at which `c` stands.
pub proof fn first_at_is_least(s: Seq<char>, c: char)
    ensures
        0 <= first_at(s, c) <= s.len(),
        first_at(s, c) < s.len() ==> s[first_at(s, c)] == c,
        forall|k: int| 0 <= k < first_at(s, c) ==> s[k] != c,
    decreases s.len(),
{
    if s.len() > 0 && s[0] != c {
        first_at_is_least(s.drop_first(), c);
        assert forall|k: int| 0 <= k < first_at(s, c) implies s[k] != c by {
            if k > 0 {
                assert(s[k] == s.drop_first()[k - 1]);
            }
        }
    }
}

proof fn first_at_unique(s: Seq<char>, c: char, i: int)
    requires
        0 <= i <= s.len(),
        i < s.len() ==> s[i] == c,
        forall|k: int| 0 <= k < i ==> s[k] != c,
    ensures
        first_at(s, c) == i,
{
    first_at_is_least(s, c);
    let f = first_at(s, c);
    if f < i {
        assert(s[f] != c);
    } else if i < f {
        assert(s[i] != c);
    }
}

/// Where `c` first occurs in `s`; the length of `s` where it does not.
pub fn find_first(s: &[char], c: char) -> (r: usize)
    ensures
        r == first_at(s@, c),
        r <= s@.len(),
{
    let mut i: usize = 0;
    while i < s.len() && s[i] != c
        invariant
            i <= s@.len(),
            forall|k: int| 0 <= k < i ==> s@[k] != c,
        decreases s@.len() - i,
    {
        i = i + 1;
    }
    proof {
        first_at_unique(s@, c, i as int);
    }
    i
}

/// The views of nested character vectors.
pub open spec fn texts(v: Seq<Vec<char>>) -> Seq<Seq<char>> {
    v.map_values(|x: Vec<char>| x@)
}

/// The parts of `s` between the occurrences of `c`.
pub open spec fn split(s: Seq<char>, c: char) -> Seq<Seq<char>>
    decreases s.len(),
    via split_decreases
{
    let k = first_at(s, c);
    if k >= s.len() {
        seq![s]
    } else {
        seq![s.take(k)] + split(s.skip(k + 1), c)
    }
}

#[via_fn]
proof fn split_decreases(s: Seq<char>, c: char) {
    first_at_is_least(s, c);
}

/// The parts of `s` between the occurrences of `c`.
pub fn split_on(s: &[char], c: char) -> (r: Vec<Vec<char>>)
    ensures
        texts(r@) == split(s@, c),
{
    let mut out: Vec<Vec<char>> = Vec::new();
    let mut rest: &[char] = s;
    let mut k: usize = find_first(rest, c);
    assert(texts(out@) + split(rest@, c) =~= split(s@, c));
    while k < rest.len()
        invariant
            k == first_at(rest@, c),
            k <= rest@.len(),
            texts(out@) + split(rest@, c) == split(s@, c),
        decreases rest@.len(),
    {
        let part = slice_to_vec(slice_subrange(rest, 0, k));
        let ghost before = out@;
        let ghost whole = rest@;
        out.push(part);
        rest = slice_subrange(rest, k + 1, rest.len());
        proof {
            assert(part@ =~= whole.take(k as int));
            assert(rest@ =~= whole.skip(k + 1));
            assert(texts(out@) =~= texts(before).push(part@));
            assert(texts(out@) + split(rest@, c) =~= texts(before) + (seq![part@] + split(rest@, c)));
        }
        k = find_first(rest, c);
    }
    let ghost before = out@;
    out.push(slice_to_vec(rest));
    assert(texts(out@) =~= texts(before) + seq![rest@]);
    out
}

/// A line without the carriage return that may stand before its line feed.
pub open spec fn chomp(s: Seq<char>) -> Seq<char> {
    if s.len() > 0 && s.last() == '\r' {
        s.drop_last()
    } else {
        s
    }
}

/// The lines of a text. A line ends at a line feed, or at a carriage return and
/// a line feed; what follows the last line feed is a line unless it is empty.
pub open spec fn lines(s: Seq<char>) -> Seq<Seq<char>>
    decreases s.len(),
    via lines_decreases
{
    let k = first_at(s, '\n');
    if s.len() == 0 {
        seq![]
    } else if k >= s.len() {
        seq![s]
    } else {
        seq![chomp(s.take(k))] + lines(s.skip(k + 1))
    }
}

#[via_fn]
proof fn lines_decreases(s: Seq<char>) {
    first_at_is_least(s, '\n');
}

/// The lines of a text.
pub fn lines_of(s: &[char]) -> (r: Vec<Vec<char>>)
    ensures
        texts(r@) == lines(s@),
{
    let mut out: Vec<Vec<char>> = Vec::new();
    let mut rest: &[char] = s;
    assert(texts(out@) + lines(rest@) =~= lines(s@));
    while rest.len() > 0
        invariant
            texts(out@) + lines(rest@) == lines(s@),
        decreases rest@.len(),
    {
        let k: usize = find_first(rest, '\n');
        let ghost before = out@;
        let ghost whole = rest@;
        if k >= rest.len() {
            out.push(slice_to_vec(rest));
            rest = slice_subrange(rest, rest.len(), rest.len());
            proof {
                assert(rest@.len() == 0);
                assert(texts(out@) =~= texts(before).push(whole));
                assert(texts(out@) + lines(rest@) =~= texts(before) + seq![whole]);
            }
        } else {
            let end: usize = if k > 0 && rest[k - 1] == '\r' {
                k - 1
            } else {
                k
            };
            let part = slice_to_vec(slice_subrange(rest, 0, end));
            out.push(part);
            rest = slice_subrange(rest, k + 1, rest.len());
            proof {
                assert(part@ =~= chomp(whole.take(k as int)));
                assert(rest@ =~= whole.skip(k + 1));
                assert(texts(out@) =~= texts(before).push(part@));
                assert(texts(out@) + lines(rest@) =~= texts(before) + (seq![part@] + lines(rest@)));
            }
        }
    }
    assert(texts(out@) + lines(rest@) =~= texts(out@));
    out
}

/// How many characters stand before the first white space in `s`.
pub open spec fn word_len(s: Seq<char>) -> int
    decreases s.len(),
{
    if s.len() == 0 || is_space(s[0]) {
        0
    } else {
        1 + word_len(s.drop_first())
    }
}

proof fn word_len_bound(s: Seq<char>)
    ensures
        0 <= word_len(s) <= s.len(),
        s.len() > 0 && !is_space(s[0]) ==> word_len(s) > 0,
    decreases s.len(),
{
    if s.len() > 0 && !is_space(s[0]) {
        word_len_bound(s.drop_first());
    }
}

proof fn trim_start_len(s: Seq<char>)
    ensures
        trim_start(s).len() <= s.len(),
        trim_start(s).len() > 0 ==> !is_space(trim_start(s)[0]),
    decreases s.len(),
{
    if s.len() > 0 && is_space(s[0]) {
        trim_start_len(s.drop_first());
    }
}

/// The words of `s`, parted by white space.
pub open spec fn words(s: Seq<char>) -> Seq<Seq<char>>
    decreases s.len(),
    via words_decreases
{
    let t = trim_start(s);
    if t.len() == 0 {
        seq![]
    } else {
        seq![t.take(word_len(t))] + words(t.skip(word_len(t)))
    }
}

#[via_fn]
proof fn words_decreases(s: Seq<char>) {
    trim_start_len(s);
    word_len_bound(trim_start(s));
}

fn find_space(s: &[char]) -> (r: usize)
    ensures
        r == word_len(s@),
        r <= s@.len(),
{
    let mut i: usize = 0;
    assert(s@.skip(0) =~= s@);
    while i < s.len() && !space(s[i])
        invariant
            i <= s@.len(),
            word_len(s@) == i + word_len(s@.skip(i as int)),
        decreases s@.len() - i,
    {
        assert(s@.skip(i as int).drop_first() =~= s@.skip(i + 1));
        i = i + 1;
    }
    i
}

/// The words of `s`, parted by white space.
pub fn words_of(s: &[char]) -> (r: Vec<Vec<char>>)
    ensures
        texts(r@) == words(s@),
{
    let mut out: Vec<Vec<char>> = Vec::new();
    let mut rest: &[char] = trimmed_start(s);
    let ghost mut src = s@;
    assert(texts(out@) + words(src) =~= words(s@));
    while rest.len() > 0
        invariant
            rest@ == trim_start(src),
            texts(out@) + words(src) == words(s@),
        decreases rest@.len(),
    {
        let k: usize = find_space(rest);
        let ghost before = out@;
        let ghost t = rest@;
        proof {
            trim_start_len(src);
            word_len_bound(t);
        }
        let part = slice_to_vec(slice_subrange(rest, 0, k));
        out.push(part);
        let tail = slice_subrange(rest, k, rest.len());
        proof {
            assert(part@ =~= t.take(k as int));
            assert(tail@ =~= t.skip(k as int));
            assert(texts(out@) =~= texts(before).push(part@));
            assert(texts(out@) + words(tail@) =~= texts(before) + (seq![part@] + words(tail@)));
            src = tail@;
            trim_start_len(tail@);
        }
        rest = trimmed_start(tail);
    }
    assert(texts(out@) + words(src) =~= texts(out@));
    out
}

// ---------------------------------------------------------------------------
// Numbers
// ---------------------------------------------------------------------------

/// The value of a decimal digit; -1 for any other character.
pub open spec fn digit_value(c: char) -> int {
    if c == '0' {
        0
    } else if c == '1' {
        1
    } else if c == '2' {
        2
    } else if c == '3' {
        3
    } else if c == '4' {
        4
    } else if c == '5' {
        5
    } else if c == '6' {
        6
    } else if c == '7' {
        7
    } else if c == '8' {
        8
    } else if c == '9' {
        9
    } else {
        -1
    }
}

fn value_of_digit(c: char) -> (r: Option<u64>)
    ensures
        r is Some == (digit_value(c) >= 0),
        r matches Some(d) ==> d == digit_value(c),
        r matches Some(d) ==> d < 10,
{
    if c == '0' {
        Some(0)
    } else if c == '1' {
        Some(1)
    } else if c == '2' {
        Some(2)
    } else if c == '3' {
        Some(3)
    } else if c == '4' {
        Some(4)
    } else if c == '5' {
        Some(5)
    } else if c == '6' {
        Some(6)
    } else if c == '7' {
        Some(7)
    } else if c == '8' {
        Some(8)
    } else if c == '9' {
        Some(9)
    } else {
        None
    }
}

/// At least one character, and nothing but decimal digits.
pub open spec fn all_digits(s: Seq<char>) -> bool {
    s.len() > 0 && forall|i: int| 0 <= i < s.len() ==> digit_value(#[trigger] s[i]) >= 0
}

/// The number that a run of digits writes.
pub open spec fn nat_of(s: Seq<char>) -> int
    decreases s.len(),
{
    if s.len() == 0 {
        0
    } else {
        10 * nat_of(s.drop_last()) + digit_value(s.last())
    }
}

/// The number that `s` writes, up to `max`: digits, with an optional plus sign.
pub open spec fn unsigned_of(s: Seq<char>, max: int) -> Option<int> {
    let t = if s.len() > 0 && s[0] == '+' {
        s.drop_first()
    } else {
        s
    };
    if all_digits(t) && nat_of(t) <= max {
        Some(nat_of(t))
    } else {
        None
    }
}

/// The number that `s` writes, within `min` and `max`: digits, with an optional
/// sign.
pub open spec fn signed_of(s: Seq<char>, min: int, max: int) -> Option<int> {
    if s.len() > 0 && s[0] == '-' {
        let t = s.drop_first();
        if all_digits(t) && -nat_of(t) >= min {
            Some(-nat_of(t))
        } else {
            None
        }
    } else {
        unsigned_of(s, max)
    }
}

proof fn nat_of_prefix(s: Seq<char>, i: int)
    requires
        0 <= i <= s.len(),
        forall|k: int| 0 <= k < s.len() ==> digit_value(#[trigger] s[k]) >= 0,
    ensures
        0 <= nat_of(s.take(i)) <= nat_of(s),
    decreases s.len(),
{
    if i == s.len() {
        assert(s.take(i) =~= s);
        if s.len() > 0 {
            assert(forall|k: int| 0 <= k < s.drop_last().len() ==> digit_value(#[trigger] s.drop_last()[k]) >= 0);
            nat_of_prefix(s.drop_last(), s.len() - 1);
            assert(s.drop_last().take(s.len() - 1) =~= s.drop_last());
            assert(digit_value(s[s.len() - 1]) >= 0);
        }
    } else {
        assert(forall|k: int| 0 <= k < s.drop_last().len() ==> digit_value(#[trigger] s.drop_last()[k]) >= 0);
        nat_of_prefix(s.drop_last(), i);
        assert(s.drop_last().take(i) =~= s.take(i));
        assert(digit_value(s[s.len() - 1]) >= 0);
    }
}

/// The number that a run of digits writes, where it is one and is at most `max`.
fn digits_number(s: &[char], max: u64) -> (r: Option<u64>)
    ensures
        r is Some == (all_digits(s@) && nat_of(s@) <= max),
        r matches Some(v) ==> v == nat_of(s@),
{
    if s.len() == 0 {
        return None;
    }
    let mut acc: u64 = 0;
    let mut over: bool = false;
    let mut i: usize = 0;
    while i < s.len()
        invariant
            i <= s@.len(),
            forall|k: int| 0 <= k < i ==> digit_value(#[trigger] s@[k]) >= 0,
            !over ==> acc == nat_of(s@.take(i as int)) && acc <= max,
            over ==> nat_of(s@.take(i as int)) > max,
        decreases s@.len() - i,
    {
        match value_of_digit(s[i]) {
            None => {
                assert(digit_value(s@[i as int]) < 0);
                return None;
            },
            Some(d) => {
                assert(s@.take(i + 1).drop_last() =~= s@.take(i as int));
                assert(s@.take(i + 1).last() == s@[i as int]);
                if over {
                } else if acc > (u64::MAX - d) / 10 || acc * 10 + d > max {
                    over = true;
                } else {
                    acc = acc * 10 + d;
                }
            },
        }
        i = i + 1;
    }
    assert(s@.take(i as int) =~= s@);
    if over {
        None
    } else {
        Some(acc)
    }
}

/// Read an unsigned number of at most `max`.
pub fn parse_unsigned(s: &[char], max: u64) -> (r: Option<u64>)
    ensures
        r is Some == (unsigned_of(s@, max as int) is Some),
        r matches Some(v) ==> unsigned_of(s@, max as int) == Some(v as int),
{
    if s.len() > 0 && s[0] == '+' {
        let t = slice_subrange(s, 1, s.len());
        assert(t@ =~= s@.drop_first());
        digits_number(t, max)
    } else {
        digits_number(s, max)
    }
}

/// Read a `u64`.
pub fn parse_u64(s: &[char]) -> (r: Option<u64>)
    ensures
        r is Some == (unsigned_of(s@, u64::MAX as int) is Some),
        r matches Some(v) ==> unsigned_of(s@, u64::MAX as int) == Some(v as int),
{
    parse_unsigned(s, u64::MAX)
}

/// Read an `i64`.
pub fn parse_i64(s: &[char]) -> (r: Option<i64>)
    ensures
        r is Some == (signed_of(s@, i64::MIN as int, i64::MAX as int) is Some),
        r matches Some(v) ==> signed_of(s@, i64::MIN as int, i64::MAX as int) == Some(v as int),
{
    if s.len() > 0 && s[0] == '-' {
        let t = slice_subrange(s, 1, s.len());
        assert(t@ =~= s@.drop_first());
        match digits_number(t, 0x8000_0000_0000_0000) {
            Some(v) => if v == 0x8000_0000_0000_0000 {
                Some(i64::MIN)
            } else {
                Some(-(v as i64))
            },
            None => None,
        }
    } else {
        match parse_unsigned(s, 0x7fff_ffff_ffff_ffff) {
            Some(v) => Some(v as i64),
            None => None,
        }
    }
}

/// What follows `prefix` on the first line that starts with it.
pub open spec fn first_after(ls: Seq<Seq<char>>, prefix: Seq<char>) -> Option<Seq<char>>
    decreases ls.len(),
{
    if ls.len() == 0 {
        None
    } else if after_prefix(ls[0], prefix) is Some {
        after_prefix(ls[0], prefix)
    } else {
        first_after(ls.drop_first(), prefix)
    }
}

/// What follows `prefix` on the first line of `text` that starts with it.
pub fn line_after(text: &str, prefix: &str) -> (r: Option<Vec<char>>)
    ensures
        r is Some == (first_after(lines(text@), prefix@) is Some),
        r matches Some(v) ==> first_after(lines(text@), prefix@) == Some(v@),
{
    let chars = crate::text::chars_of(text);
    let key = crate::text::chars_of(prefix);
    let ls = lines_of(chars.as_slice());
    let ghost all = lines(text@);
    assert(texts(ls@).len() == ls@.len());
    let mut i: usize = 0;
    assert(all.skip(0) =~= all);
    while i < ls.len()
        invariant
            i <= ls@.len(),
            texts(ls@) == all,
            all == lines(text@),
            all.len() == ls@.len(),
            key@ == prefix@,
            first_after(all, prefix@) == first_after(all.skip(i as int), prefix@),
        decreases ls@.len() - i,
    {
        assert(texts(ls@)[i as int] == ls@[i as int]@);
        assert(all.skip(i as int)[0] == all[i as int]);
        assert(all.skip(i as int).drop_first() =~= all.skip(i + 1));
        match strip(ls[i].as_slice(), key.as_slice()) {
            Some(rest) => {
                return Some(slice_to_vec(rest));
            },
            None => {},
        }
        i = i + 1;
    }
    None
}

/// Where `c` last occurs in `s`; -1 where it does not.
pub open spec fn last_at(s: Seq<char>, c: char) -> int
    decreases s.len(),
{
    if s.len() == 0 {
        -1
    } else if s.last() == c {
        s.len() - 1
    } else {
        last_at(s.drop_last(), c)
    }
}

/// What follows the last `c` in `s`.
pub fn after_last<'a>(s: &'a [char], c: char) -> (r: Option<&'a [char]>)
    ensures
        r is Some == (last_at(s@, c) >= 0),
        r matches Some(rest) ==> rest@ == s@.skip(last_at(s@, c) + 1),
{
    let mut n: usize = s.len();
    assert(s@.take(n as int) =~= s@);
    while n > 0
        invariant
            n <= s@.len(),
            last_at(s@, c) == last_at(s@.take(n as int), c),
        decreases n,
    {
        assert(s@.take(n as int).drop_last() =~= s@.take(n - 1));
        assert(s@.take(n as int).last() == s@[n - 1]);
        if s[n - 1] == c {
            let rest = slice_subrange(s, n, s.len());
            assert(rest@ =~= s@.skip(n as int));
            return Some(rest);
        }
        n = n - 1;
    }
    None
}

/// Where `pat` first occurs in `s`; `None` where it does not.
pub open spec fn found_at(s: Seq<char>, pat: Seq<char>) -> Option<int>
    decreases s.len(),
{
    if pat.is_prefix_of(s) {
        Some(0)
    } else if s.len() == 0 {
        None
    } else {
        match found_at(s.drop_first(), pat) {
            Some(k) => Some(k + 1),
            None => None,
        }
    }
}

/// Where `pat` first occurs in `s`.
pub fn find(s: &[char], pat: &[char]) -> (r: Option<usize>)
    ensures
        r is Some == (found_at(s@, pat@) is Some),
        r matches Some(k) ==> found_at(s@, pat@) == Some(k as int) && k + pat@.len() <= s@.len(),
{
    let mut i: usize = 0;
    assert(s@.skip(0) =~= s@);
    while i <= s.len()
        invariant
            i <= s@.len() + 1,
            found_at(s@, pat@) is Some ==> i <= s@.len(),
            i <= s@.len() ==> (found_at(s@, pat@) is Some == (found_at(
                s@.skip(i as int),
                pat@,
            ) is Some)),
            i <= s@.len() ==> (found_at(s@.skip(i as int), pat@) matches Some(k) ==> found_at(
                s@,
                pat@,
            ) == Some(k + i)),
        decreases s@.len() + 1 - i,
    {
        let rest = slice_subrange(s, i, s.len());
        assert(rest@ =~= s@.skip(i as int));
        if has_prefix(rest, pat) {
            return Some(i);
        }
        if i == s.len() {
            return None;
        }
        assert(rest@.drop_first() =~= s@.skip(i + 1));
        i = i + 1;
    }
    None
}

/// Whether `s` ends with `tail`.
pub fn has_suffix(s: &[char], tail: &[char]) -> (r: bool)
    ensures
        r == tail@.is_suffix_of(s@),
{
    if tail.len() > s.len() {
        return false;
    }
    let end = slice_subrange(s, s.len() - tail.len(), s.len());
    crate::text::same_chars(tail, end)
}

} // verus!

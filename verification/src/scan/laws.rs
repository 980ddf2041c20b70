//! What the scanners give back of what was written.

use vstd::prelude::*;

use crate::scan::{
    all_digits, chomp, digit_value, first_after, first_at, first_at_is_least,
    found_at, is_space, last_at, lines, nat_of, signed_of, split, trim, trim_end, trim_end_of,
    trim_start, trim_start_of, unsigned_of, word_len, words,
};
use crate::text::{dec, dec_nat};

verus! {

// ---------------------------------------------------------------------------
// Numbers
// ---------------------------------------------------------------------------

proof fn digits_are_read_back(n: nat)
    ensures
        all_digits(dec_nat(n)),
        nat_of(dec_nat(n)) == n,
    decreases n,
{
    let s = dec_nat(n);
    reveal_with_fuel(nat_of, 2);
    if n >= 10 {
        digits_are_read_back(n / 10);
        assert(s.drop_last() =~= dec_nat(n / 10));
        assert forall|i: int| 0 <= i < s.len() implies digit_value(#[trigger] s[i]) >= 0 by {
            if i < s.len() - 1 {
                assert(s[i] == dec_nat(n / 10)[i]);
            }
        }
    } else {
        assert(s.drop_last() =~= Seq::<char>::empty());
    }
}

/// A number that is written out in decimal is read back, with or without a sign, as
/// long as it is within the bounds; beyond them it is not read.
pub proof fn a_number_is_read_back(n: int, min: int, max: int)
    requires
        min <= 0 <= max,
    ensures
        0 <= n <= max ==> unsigned_of(dec(n), max) == Some(n) && unsigned_of(
            seq!['+'] + dec(n),
            max,
        ) == Some(n),
        n > max ==> unsigned_of(dec(n), max) is None && signed_of(dec(n), min, max) is None,
        n < 0 ==> unsigned_of(dec(n), max) is None,
        min <= n <= max ==> signed_of(dec(n), min, max) == Some(n),
        n < min ==> signed_of(dec(n), min, max) is None,
{
    if n >= 0 {
        let s = dec_nat(n as nat);
        digits_are_read_back(n as nat);
        assert(digit_value(s[0]) >= 0);
        assert((seq!['+'] + s).drop_first() =~= s);
    } else {
        let s = dec_nat((-n) as nat);
        digits_are_read_back((-n) as nat);
        let t = seq!['-'] + s;
        assert(t.drop_first() =~= s);
        assert(digit_value(t[0]) < 0);
    }
}

// ---------------------------------------------------------------------------
// Trimming
// ---------------------------------------------------------------------------

/// Trimming takes the white space off both ends and nothing else. Gives where what
/// is left begins and ends.
pub proof fn trimming_takes_the_ends(s: Seq<char>) -> (w: (int, int))
    ensures
        0 <= w.0 <= w.1 <= s.len(),
        trim(s) == s.subrange(w.0, w.1),
        forall|i: int| 0 <= i < w.0 ==> is_space(#[trigger] s[i]),
        forall|i: int| w.1 <= i < s.len() ==> is_space(#[trigger] s[i]),
        trim(s).len() > 0 ==> !is_space(trim(s)[0]) && !is_space(trim(s).last()),
{
    let a = trim_start_at(s);
    let t = trim_start(s);
    let b = trim_end_at(t);
    assert(trim(s) =~= s.subrange(a, a + b));
    assert forall|i: int| a + b <= i < s.len() implies is_space(#[trigger] s[i]) by {
        assert(t[i - a] == s[i]);
    }
    (a, a + b)
}

proof fn trim_start_at(s: Seq<char>) -> (a: int)
    ensures
        0 <= a <= s.len(),
        trim_start(s) == s.skip(a),
        forall|i: int| 0 <= i < a ==> is_space(#[trigger] s[i]),
        a < s.len() ==> !is_space(s[a]),
    decreases s.len(),
{
    if s.len() > 0 && is_space(s[0]) {
        let a = trim_start_at(s.drop_first());
        assert(s.drop_first().skip(a) =~= s.skip(a + 1));
        assert forall|i: int| 0 <= i < a + 1 implies is_space(#[trigger] s[i]) by {
            if i > 0 {
                assert(s.drop_first()[i - 1] == s[i]);
            }
        }
        a + 1
    } else {
        assert(s.skip(0) =~= s);
        0
    }
}

proof fn trim_end_at(s: Seq<char>) -> (b: int)
    ensures
        0 <= b <= s.len(),
        trim_end(s) == s.take(b),
        forall|i: int| b <= i < s.len() ==> is_space(#[trigger] s[i]),
        b > 0 ==> !is_space(s[b - 1]),
    decreases s.len(),
{
    if s.len() > 0 && is_space(s.last()) {
        let b = trim_end_at(s.drop_last());
        assert(s.drop_last().take(b) =~= s.take(b));
        assert forall|i: int| b <= i < s.len() implies is_space(#[trigger] s[i]) by {
            if i < s.len() - 1 {
                assert(s.drop_last()[i] == s[i]);
            }
        }
        b
    } else {
        assert(s.take(s.len() as int) =~= s);
        s.len() as int
    }
}

/// Taking characters off an end stops at the first that is not among them.
pub proof fn only_the_set_is_taken(s: Seq<char>, set: Seq<char>) -> (w: (int, int))
    ensures
        0 <= w.0 <= s.len() && 0 <= w.1 <= s.len(),
        trim_start_of(s, set) == s.skip(w.0),
        forall|i: int| 0 <= i < w.0 ==> set.contains(#[trigger] s[i]),
        w.0 < s.len() ==> !set.contains(s[w.0]),
        trim_end_of(s, set) == s.take(w.1),
        forall|i: int| w.1 <= i < s.len() ==> set.contains(#[trigger] s[i]),
        w.1 > 0 ==> !set.contains(s[w.1 - 1]),
{
    (set_start_at(s, set), set_end_at(s, set))
}

proof fn set_start_at(s: Seq<char>, set: Seq<char>) -> (a: int)
    ensures
        0 <= a <= s.len(),
        trim_start_of(s, set) == s.skip(a),
        forall|i: int| 0 <= i < a ==> set.contains(#[trigger] s[i]),
        a < s.len() ==> !set.contains(s[a]),
    decreases s.len(),
{
    if s.len() > 0 && set.contains(s[0]) {
        let a = set_start_at(s.drop_first(), set);
        assert(s.drop_first().skip(a) =~= s.skip(a + 1));
        assert forall|i: int| 0 <= i < a + 1 implies set.contains(#[trigger] s[i]) by {
            if i > 0 {
                assert(s.drop_first()[i - 1] == s[i]);
            }
        }
        a + 1
    } else {
        assert(s.skip(0) =~= s);
        0
    }
}

proof fn set_end_at(s: Seq<char>, set: Seq<char>) -> (b: int)
    ensures
        0 <= b <= s.len(),
        trim_end_of(s, set) == s.take(b),
        forall|i: int| b <= i < s.len() ==> set.contains(#[trigger] s[i]),
        b > 0 ==> !set.contains(s[b - 1]),
    decreases s.len(),
{
    if s.len() > 0 && set.contains(s.last()) {
        let b = set_end_at(s.drop_last(), set);
        assert(s.drop_last().take(b) =~= s.take(b));
        assert forall|i: int| b <= i < s.len() implies set.contains(#[trigger] s[i]) by {
            if i < s.len() - 1 {
                assert(s.drop_last()[i] == s[i]);
            }
        }
        b
    } else {
        assert(s.take(s.len() as int) =~= s);
        s.len() as int
    }
}

// ---------------------------------------------------------------------------
// Parts
// ---------------------------------------------------------------------------

/// Texts with `c` between them.
pub open spec fn with_between(parts: Seq<Seq<char>>, c: char) -> Seq<char>
    decreases parts.len(),
{
    if parts.len() == 0 {
        seq![]
    } else if parts.len() == 1 {
        parts[0]
    } else {
        parts[0] + seq![c] + with_between(parts.drop_first(), c)
    }
}

proof fn found_behind(a: Seq<char>, c: char, rest: Seq<char>)
    requires
        !a.contains(c),
    ensures
        first_at(a + seq![c] + rest, c) == a.len(),
{
    let s = a + seq![c] + rest;
    first_at_is_least(s, c);
    let k = first_at(s, c);
    if k < a.len() {
        assert(a[k] == s[k]);
        assert(a.contains(c));
    }
    assert(s[a.len() as int] == c);
}

/// A text that was put together from parts is taken apart into them.
pub proof fn parts_are_read_back(parts: Seq<Seq<char>>, c: char)
    requires
        parts.len() > 0,
        forall|i: int| 0 <= i < parts.len() ==> !(#[trigger] parts[i]).contains(c),
    ensures
        split(with_between(parts, c), c) == parts,
    decreases parts.len(),
{
    let s = with_between(parts, c);
    assert(!parts[0].contains(c));
    first_at_is_least(s, c);
    if parts.len() == 1 {
        if first_at(s, c) < s.len() {
            assert(parts[0].contains(s[first_at(s, c)]));
        }
        assert(split(s, c) =~= parts);
    } else {
        let more = parts.drop_first();
        assert forall|i: int| 0 <= i < more.len() implies !(#[trigger] more[i]).contains(c) by {
            assert(more[i] == parts[i + 1]);
        }
        parts_are_read_back(more, c);
        let rest = with_between(more, c);
        found_behind(parts[0], c, rest);
        assert(s.take(parts[0].len() as int) =~= parts[0]);
        assert(s.skip(parts[0].len() as int + 1) =~= rest);
        assert(split(s, c) =~= parts);
    }
}

/// Taking a text apart loses nothing: no part holds the separator, and with it
/// between them the parts are the text again.
pub proof fn splitting_loses_nothing(s: Seq<char>, c: char)
    ensures
        split(s, c).len() > 0,
        forall|i: int| 0 <= i < split(s, c).len() ==> !(#[trigger] split(s, c)[i]).contains(c),
        with_between(split(s, c), c) == s,
    decreases s.len(),
{
    first_at_is_least(s, c);
    let k = first_at(s, c);
    let parts = split(s, c);
    if k < s.len() {
        let rest = s.skip(k + 1);
        splitting_loses_nothing(rest, c);
        assert(parts.drop_first() =~= split(rest, c));
        assert(!s.take(k).contains(c));
        assert forall|i: int| 0 <= i < parts.len() implies !(#[trigger] parts[i]).contains(c) by {
            if i > 0 {
                assert(parts[i] == split(rest, c)[i - 1]);
            }
        }
        assert(s.take(k) + seq![c] + rest =~= s);
    } else {
        assert(!s.contains(c));
    }
}

/// Texts, each with a line feed behind it.
pub open spec fn line_by_line(ls: Seq<Seq<char>>) -> Seq<char>
    decreases ls.len(),
{
    if ls.len() == 0 {
        seq![]
    } else {
        ls[0] + seq!['\n'] + line_by_line(ls.drop_first())
    }
}

/// What was written line by line is read line by line, as long as no line holds a
/// line feed or ends in a carriage return; and the last needs no line feed.
pub proof fn lines_are_read_back(ls: Seq<Seq<char>>)
    requires
        forall|i: int|
            0 <= i < ls.len() ==> !(#[trigger] ls[i]).contains('\n') && (ls[i].len() > 0
                ==> ls[i].last() != '\r'),
    ensures
        lines(line_by_line(ls)) == ls,
    decreases ls.len(),
{
    let s = line_by_line(ls);
    if ls.len() > 0 {
        let more = ls.drop_first();
        assert(!ls[0].contains('\n'));
        assert forall|i: int| 0 <= i < more.len() implies !(#[trigger] more[i]).contains('\n') && (
        more[i].len() > 0 ==> more[i].last() != '\r') by {
            assert(more[i] == ls[i + 1]);
        }
        lines_are_read_back(more);
        let rest = line_by_line(more);
        found_behind(ls[0], '\n', rest);
        assert(s.take(ls[0].len() as int) =~= ls[0]);
        assert(s.skip(ls[0].len() as int + 1) =~= rest);
        assert(chomp(ls[0]) == ls[0]);
        assert(lines(s) =~= ls);
    } else {
        assert(lines(s) =~= ls);
    }
}

/// Texts, each with a space behind it.
pub open spec fn word_by_word(ws: Seq<Seq<char>>) -> Seq<char>
    decreases ws.len(),
{
    if ws.len() == 0 {
        seq![]
    } else {
        ws[0] + seq![' '] + word_by_word(ws.drop_first())
    }
}

proof fn word_is_long(w: Seq<char>, rest: Seq<char>)
    requires
        forall|i: int| 0 <= i < w.len() ==> !is_space(#[trigger] w[i]),
        rest.len() > 0 ==> is_space(rest[0]),
    ensures
        word_len(w + rest) == w.len(),
    decreases w.len(),
{
    let s = w + rest;
    if w.len() > 0 {
        assert(s[0] == w[0]);
        assert(s.drop_first() =~= w.drop_first() + rest);
        assert forall|i: int| 0 <= i < w.drop_first().len() implies !is_space(
            #[trigger] w.drop_first()[i],
        ) by {
            assert(w.drop_first()[i] == w[i + 1]);
        }
        word_is_long(w.drop_first(), rest);
    } else {
        assert(s =~= rest);
    }
}

/// What was written word by word is read word by word.
pub proof fn words_are_read_back(ws: Seq<Seq<char>>)
    requires
        forall|i: int| 0 <= i < ws.len() ==> (#[trigger] ws[i]).len() > 0,
        forall|i: int, k: int|
            0 <= i < ws.len() && 0 <= k < ws[i].len() ==> !is_space(#[trigger] ws[i][k]),
    ensures
        words(word_by_word(ws)) == ws,
        words(seq![' '] + word_by_word(ws)) == ws,
    decreases ws.len(),
{
    let s = word_by_word(ws);
    let t = seq![' '] + s;
    assert(t.drop_first() =~= s);
    if ws.len() > 0 {
        let more = ws.drop_first();
        let w = ws[0];
        assert forall|i: int| 0 <= i < more.len() implies (#[trigger] more[i]).len() > 0 by {
            assert(more[i] == ws[i + 1]);
        }
        assert forall|i: int, k: int| 0 <= i < more.len() && 0 <= k < more[i].len() implies !is_space(
            #[trigger] more[i][k],
        ) by {
            assert(more[i] == ws[i + 1]);
            assert(!is_space(ws[i + 1][k]));
        }
        words_are_read_back(more);
        let rest = seq![' '] + word_by_word(more);
        assert(s =~= w + rest);
        assert forall|i: int| 0 <= i < w.len() implies !is_space(#[trigger] w[i]) by {
            assert(!is_space(ws[0][i]));
        }
        word_is_long(w, rest);
        assert(!is_space(s[0])) by {
            assert(s[0] == w[0]);
        }
        assert(trim_start(s) == s);
        assert(s.take(w.len() as int) =~= w);
        assert(s.skip(w.len() as int) =~= rest);
        assert(words(s) =~= ws);
        reveal_with_fuel(trim_start, 2);
        assert(trim_start(t) == s);
    } else {
        reveal_with_fuel(trim_start, 2);
        assert(trim_start(s) =~= s);
        assert(trim_start(t) =~= s);
        assert(words(s) =~= ws);
        assert(words(t) =~= ws);
    }
}

// ---------------------------------------------------------------------------
// Finding
// ---------------------------------------------------------------------------

/// `pat` stands in `s` at `k`.
pub open spec fn stands_at(s: Seq<char>, pat: Seq<char>, k: int) -> bool {
    0 <= k && k + pat.len() <= s.len() && s.subrange(k, k + pat.len()) == pat
}

/// A pattern is found where it first stands, and nowhere where it does not.
pub proof fn a_pattern_is_found_first(s: Seq<char>, pat: Seq<char>)
    ensures
        found_at(s, pat) matches Some(k) ==> stands_at(s, pat, k) && forall|i: int|
            i < k ==> !#[trigger] stands_at(s, pat, i),
        found_at(s, pat) is None ==> forall|i: int| !#[trigger] stands_at(s, pat, i),
    decreases s.len(),
{
    if pat.is_prefix_of(s) {
        assert(s.subrange(0, pat.len() as int) =~= pat);
    } else if s.len() == 0 {
        assert forall|i: int| !#[trigger] stands_at(s, pat, i) by {
            if stands_at(s, pat, i) {
                assert(pat =~= s.subrange(0, pat.len() as int));
            }
        }
    } else {
        let t = s.drop_first();
        a_pattern_is_found_first(t, pat);
        assert forall|i: int| #[trigger] stands_at(s, pat, i) implies i > 0 && stands_at(
            t,
            pat,
            i - 1,
        ) by {
            if i == 0 {
                assert(pat =~= s.subrange(0, pat.len() as int));
            } else {
                assert(t.subrange(i - 1, i - 1 + pat.len()) =~= s.subrange(i, i + pat.len()));
            }
        }
        if let Some(k) = found_at(t, pat) {
            assert(s.subrange(k + 1, k + 1 + pat.len()) =~= t.subrange(k, k + pat.len()));
        }
    }
}

/// The last occurrence of a character is where it stands and behind which it does
/// not.
pub proof fn a_character_is_found_last(s: Seq<char>, c: char)
    ensures
        -1 <= last_at(s, c) < s.len(),
        last_at(s, c) >= 0 ==> s[last_at(s, c)] == c,
        forall|i: int| last_at(s, c) < i < s.len() ==> #[trigger] s[i] != c,
    decreases s.len(),
{
    if s.len() > 0 && s.last() != c {
        a_character_is_found_last(s.drop_last(), c);
        assert forall|i: int| last_at(s, c) < i < s.len() implies #[trigger] s[i] != c by {
            if i < s.len() - 1 {
                assert(s.drop_last()[i] == s[i]);
            }
        }
    }
}

/// Of lines, the first that starts with a prefix counts, with what follows on it.
pub proof fn the_first_line_counts(ls: Seq<Seq<char>>, prefix: Seq<char>)
    ensures
        forall|k: int|
            0 <= k < ls.len() && prefix.is_prefix_of(#[trigger] ls[k]) && (forall|i: int|
                0 <= i < k ==> !prefix.is_prefix_of(#[trigger] ls[i])) ==> (first_after(ls, prefix) matches Some(v)
                && ls[k] == prefix + v),
        (forall|i: int| 0 <= i < ls.len() ==> !prefix.is_prefix_of(#[trigger] ls[i]))
            ==> first_after(ls, prefix) is None,
    decreases ls.len(),
{
    if ls.len() > 0 {
        let more = ls.drop_first();
        the_first_line_counts(more, prefix);
        assert forall|k: int|
            0 <= k < ls.len() && prefix.is_prefix_of(#[trigger] ls[k]) && (forall|i: int|
                0 <= i < k ==> !prefix.is_prefix_of(#[trigger] ls[i])) implies (first_after(ls, prefix) matches Some(
            v,
        ) && ls[k] == prefix + v) by {
            if k == 0 {
                assert(ls[0] =~= prefix + ls[0].skip(prefix.len() as int));
            } else {
                assert(!prefix.is_prefix_of(ls[0]));
                assert(more[k - 1] == ls[k]);
                assert forall|i: int| 0 <= i < k - 1 implies !prefix.is_prefix_of(#[trigger] more[i]) by {
                    assert(more[i] == ls[i + 1]);
                }
            }
        }
        if forall|i: int| 0 <= i < ls.len() ==> !prefix.is_prefix_of(#[trigger] ls[i]) {
            assert(!prefix.is_prefix_of(ls[0]));
            assert forall|i: int| 0 <= i < more.len() implies !prefix.is_prefix_of(#[trigger] more[i]) by {
                assert(more[i] == ls[i + 1]);
            }
        }
    }
}

/// What counts as white space, by its number.
pub proof fn white_space_is_known_by_its_number(c: char)
    ensures
        is_space(c) <==> ({
            let n = c as u32;
            ||| 9 <= n <= 13
            ||| n == 32
            ||| n == 0x85
            ||| n == 0xa0
            ||| n == 0x1680
            ||| 0x2000 <= n <= 0x200a
            ||| n == 0x2028
            ||| n == 0x2029
            ||| n == 0x202f
            ||| n == 0x205f
            ||| n == 0x3000
        }),
{
}

} // verus!

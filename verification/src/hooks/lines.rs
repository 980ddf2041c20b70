//! Texts made of lines: every line ends in a line feed.

use vstd::prelude::*;
use vstd::string::*;

use crate::scan::{chomp, first_at, first_at_is_least, lines, texts};
use crate::text::string_of;

verus! {

/// The text of a list of lines.
pub open spec fn text_of(ls: Seq<Seq<char>>) -> Seq<char>
    decreases ls.len(),
{
    if ls.len() == 0 {
        seq![]
    } else {
        ls[0] + seq!['\n'] + text_of(ls.drop_first())
    }
}

/// A line that holds no line feed.
pub open spec fn is_unbroken(l: Seq<char>) -> bool {
    !l.contains('\n')
}

/// Every line is unbroken.
pub open spec fn all_unbroken(ls: Seq<Seq<char>>) -> bool {
    forall|i: int| 0 <= i < ls.len() ==> is_unbroken(#[trigger] ls[i])
}

/// A line that reads back as it was written: it holds no line feed and does not
/// end in a carriage return.
pub open spec fn is_clean(l: Seq<char>) -> bool {
    is_unbroken(l) && (l.len() == 0 || l.last() != '\r')
}

/// Every line is clean.
pub open spec fn all_clean(ls: Seq<Seq<char>>) -> bool {
    forall|i: int| 0 <= i < ls.len() ==> is_clean(#[trigger] ls[i])
}

/// Lines as they read back: each without the carriage return that it may end in.
pub open spec fn chomped(ls: Seq<Seq<char>>) -> Seq<Seq<char>> {
    ls.map_values(|l: Seq<char>| chomp(l))
}

/// Unbroken lines read back, whatever text follows them.
pub proof fn lines_read_on(ls: Seq<Seq<char>>, t: Seq<char>)
    requires
        all_unbroken(ls),
    ensures
        lines(text_of(ls) + t) == chomped(ls) + lines(t),
    decreases ls.len(),
{
    if ls.len() > 0 {
        let rest = ls.drop_first();
        assert(all_unbroken(rest)) by {
            assert forall|i: int| 0 <= i < rest.len() implies is_unbroken(#[trigger] rest[i]) by {
                assert(is_unbroken(ls[i + 1]));
            }
        }
        lines_read_on(rest, t);
        let s = text_of(ls) + t;
        let l = ls[0];
        assert(is_unbroken(l));
        let n = l.len() as int;
        assert(s[n] == '\n');
        first_at_is_least(s, '\n');
        let k = first_at(s, '\n');
        assert(k == n) by {
            if k < n {
                assert(s[k] == l[k]);
                assert(l.contains(l[k]));
            }
        }
        assert(s.take(n) =~= l);
        assert(s.skip(n + 1) =~= text_of(rest) + t);
        assert(chomped(ls) =~= seq![chomp(l)] + chomped(rest));
        assert(chomped(ls) + lines(t) =~= seq![chomp(l)] + (chomped(rest) + lines(t)));
    } else {
        assert(text_of(ls) + t =~= t);
        assert(chomped(ls) + lines(t) =~= lines(t));
    }
}

/// Unbroken lines read back, each without the carriage return that it may end in.
pub proof fn unbroken_lines_read_back(ls: Seq<Seq<char>>)
    requires
        all_unbroken(ls),
    ensures
        lines(text_of(ls)) == chomped(ls),
{
    let none: Seq<char> = seq![];
    lines_read_on(ls, none);
    assert(text_of(ls) + none =~= text_of(ls));
    assert(chomped(ls) + lines(none) =~= chomped(ls));
}

/// Clean lines have nothing to lose.
pub proof fn clean_lines_stay(ls: Seq<Seq<char>>)
    requires
        all_clean(ls),
    ensures
        all_unbroken(ls),
        chomped(ls) == ls,
{
    assert forall|i: int| 0 <= i < ls.len() implies is_unbroken(#[trigger] ls[i]) && chomp(ls[i])
        == ls[i] by {
        assert(is_clean(ls[i]));
    }
    assert(chomped(ls) =~= ls);
}

/// Lines that are clean read back as they were written.
pub proof fn clean_lines_read_back(ls: Seq<Seq<char>>)
    requires
        all_clean(ls),
    ensures
        lines(text_of(ls)) == ls,
{
    clean_lines_stay(ls);
    unbroken_lines_read_back(ls);
}

/// The lines of any text are unbroken.
pub proof fn lines_are_unbroken(s: Seq<char>)
    ensures
        all_unbroken(lines(s)),
    decreases s.len(),
{
    if s.len() > 0 {
        first_at_is_least(s, '\n');
        let k = first_at(s, '\n');
        if k < s.len() {
            let rest = s.skip(k + 1);
            lines_are_unbroken(rest);
            assert forall|i: int| 0 <= i < lines(s).len() implies is_unbroken(
                #[trigger] lines(s)[i],
            ) by {
                if i > 0 {
                    assert(lines(s)[i] == lines(rest)[i - 1]);
                } else {
                    let l = chomp(s.take(k));
                    assert forall|j: int| 0 <= j < l.len() implies l[j] != '\n' by {
                        assert(l[j] == s[j]);
                    }
                }
            }
        } else {
            assert(is_unbroken(s));
        }
    }
}

/// A line more.
pub proof fn text_of_push(ls: Seq<Seq<char>>, l: Seq<char>)
    ensures
        text_of(ls.push(l)) == text_of(ls) + l + seq!['\n'],
    decreases ls.len(),
{
    if ls.len() == 0 {
        let none: Seq<Seq<char>> = seq![];
        assert(ls.push(l).drop_first() =~= none);
        assert(text_of(none) =~= seq![]);
        assert(text_of(ls.push(l)) =~= text_of(ls) + l + seq!['\n']);
    } else {
        text_of_push(ls.drop_first(), l);
        assert(ls.push(l).drop_first() =~= ls.drop_first().push(l));
        assert(ls.push(l)[0] == ls[0]);
        assert(text_of(ls.push(l)) =~= text_of(ls) + l + seq!['\n']);
    }
}

/// The text of a list of lines.
pub fn write_lines(ls: &Vec<Vec<char>>) -> (r: String)
    ensures
        r@ == text_of(texts(ls@)),
{
    let ghost all = texts(ls@);
    let mut out = String::new();
    let mut i: usize = 0;
    assert(all.take(0) =~= seq![]);
    while i < ls.len()
        invariant
            i <= ls@.len(),
            all == texts(ls@),
            out@ == text_of(all.take(i as int)),
        decreases ls@.len() - i,
    {
        let line = string_of(ls[i].as_slice());
        let ghost was = out@;
        out.append(line.as_str());
        out.push('\n');
        proof {
            text_of_push(all.take(i as int), all[i as int]);
            assert(all.take(i + 1) =~= all.take(i as int).push(all[i as int]));
            assert(all[i as int] == ls@[i as int]@);
            assert(out@ =~= was + line@ + seq!['\n']);
        }
        i = i + 1;
    }
    assert(all.take(i as int) =~= all);
    out
}

} // verus!

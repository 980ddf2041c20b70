//! The chain wrapper: what is written round a hook of someone else's, and how
//! that hook is found again in it.

use vstd::prelude::*;
use vstd::slice::slice_to_vec;
use vstd::string::*;

use crate::hooks::lines::{text_of, write_lines};
use crate::scan::{after_prefix, lines, lines_of, split, split_on, strip, texts, trim, trimmed};
use crate::text::{chars_of, given, owned, string_of};

verus! {

/// The comment that names the wrapped hook.
pub const WRAP_MARKER: &'static str = "# ghr-stats-wraps:";

/// The lines of a wrapper that runs `original`, keeps its exit code, and then
/// records the event with `ours`.
pub open spec fn wrapper_lines(original: Seq<char>, ours: Seq<char>) -> Seq<Seq<char>> {
    seq![
        "#!/usr/bin/env bash"@,
        "# ghr-stats hook chain wrapper — runs the existing hook, then records"@,
        "# the ghr-stats event (best-effort). Preserves the original's exit code."@,
        WRAP_MARKER@ + " "@ + original,
        "\""@ + original + "\" \"$@\"; rc=$?"@,
        "\""@ + ours + "\" \"$@\" >/dev/null 2>&1 || true"@,
        "exit \"$rc\""@,
    ]
}

/// The text of a wrapper.
pub open spec fn wrapper(original: Seq<char>, ours: Seq<char>) -> Seq<char> {
    text_of(wrapper_lines(original, ours))
}

/// A wrapper that runs an existing hook, keeps its exit code, and then records
/// the event.
pub fn render_chain_wrapper(original: &str, ours: &str) -> (r: String)
    ensures
        r@ == wrapper(original@, ours@),
{
    let mut mark = owned(WRAP_MARKER);
    mark.append(" ");
    mark.append(original);
    let mut theirs = owned("\"");
    theirs.append(original);
    theirs.append("\" \"$@\"; rc=$?");
    let mut record = owned("\"");
    record.append(ours);
    record.append("\" \"$@\" >/dev/null 2>&1 || true");
    let mut ls: Vec<Vec<char>> = Vec::new();
    ls.push(chars_of("#!/usr/bin/env bash"));
    ls.push(chars_of("# ghr-stats hook chain wrapper — runs the existing hook, then records"));
    ls.push(chars_of("# the ghr-stats event (best-effort). Preserves the original's exit code."));
    ls.push(chars_of(mark.as_str()));
    ls.push(chars_of(theirs.as_str()));
    ls.push(chars_of(record.as_str()));
    ls.push(chars_of("exit \"$rc\""));
    assert(texts(ls@) =~= wrapper_lines(original@, ours@));
    write_lines(&ls)
}

/// Plan one hook slot. Where it holds a hook already, the slot is pointed at a
/// wrapper, which is to be written; where it holds none, at our script, and
/// nothing is written.
pub fn plan_chain_slot(original: Option<&str>, our_script: &str, wrapper_path: &str) -> (r: (
    String,
    Option<(String, String)>,
))
    ensures
        r.0@ == if original is Some {
            wrapper_path@
        } else {
            our_script@
        },
        r.1 is Some <==> original is Some,
        r.1 matches Some(w) ==> w.0@ == wrapper_path@ && w.1@ == wrapper(
            given(original)->0,
            our_script@,
        ),
{
    match original {
        Some(o) => {
            let text = render_chain_wrapper(o, our_script);
            (owned(wrapper_path), Some((owned(wrapper_path), text)))
        },
        None => (owned(our_script), None),
    }
}

/// The path that a marker line names.
pub open spec fn marked(line: Seq<char>) -> Option<Seq<char>> {
    match after_prefix(trim(line), WRAP_MARKER@) {
        Some(rest) => if trim(rest).len() > 0 {
            Some(trim(rest))
        } else {
            None
        },
        None => None,
    }
}

/// The first quoted part of a line that is neither blank nor a comment.
pub open spec fn quoted(line: Seq<char>) -> Option<Seq<char>> {
    let t = trim(line);
    let parts = split(t, '"');
    if t.len() == 0 || t[0] == '#' || parts.len() < 2 || parts[1].len() == 0 {
        None
    } else {
        Some(parts[1])
    }
}

/// The first path that a marker line names.
pub open spec fn first_marked(ls: Seq<Seq<char>>) -> Option<Seq<char>>
    decreases ls.len(),
{
    if ls.len() == 0 {
        None
    } else if marked(ls[0]) is Some {
        marked(ls[0])
    } else {
        first_marked(ls.drop_first())
    }
}

/// The first quoted part of any line.
pub open spec fn first_quoted(ls: Seq<Seq<char>>) -> Option<Seq<char>>
    decreases ls.len(),
{
    if ls.len() == 0 {
        None
    } else if quoted(ls[0]) is Some {
        quoted(ls[0])
    } else {
        first_quoted(ls.drop_first())
    }
}

/// The hook that a wrapper runs: what its marker names, else, for a wrapper
/// without one, the first quoted part of its command lines.
pub open spec fn wrapped(text: Seq<char>) -> Option<Seq<char>> {
    let ls = lines(text);
    if first_marked(ls) is Some {
        first_marked(ls)
    } else {
        first_quoted(ls)
    }
}

fn marker_of(line: &[char]) -> (r: Option<Vec<char>>)
    ensures
        r is Some == (marked(line@) is Some),
        r matches Some(v) ==> marked(line@) == Some(v@),
{
    let m = chars_of(WRAP_MARKER);
    match strip(trimmed(line), m.as_slice()) {
        Some(rest) => {
            let p = trimmed(rest);
            if p.len() > 0 {
                Some(slice_to_vec(p))
            } else {
                None
            }
        },
        None => None,
    }
}

fn quoted_of(line: &[char]) -> (r: Option<Vec<char>>)
    ensures
        r is Some == (quoted(line@) is Some),
        r matches Some(v) ==> quoted(line@) == Some(v@),
{
    let t = trimmed(line);
    if t.len() == 0 || t[0] == '#' {
        return None;
    }
    let parts = split_on(t, '"');
    assert(texts(parts@).len() == parts@.len());
    if parts.len() < 2 {
        return None;
    }
    assert(texts(parts@)[1] == parts@[1]@);
    if parts[1].len() == 0 {
        None
    } else {
        Some(slice_to_vec(parts[1].as_slice()))
    }
}

/// The hook that a wrapper runs.
pub fn original_from_wrapper(text: &str) -> (r: Option<String>)
    ensures
        r is Some == (wrapped(text@) is Some),
        r matches Some(p) ==> wrapped(text@) == Some(p@),
{
    let chars = chars_of(text);
    let ls = lines_of(chars.as_slice());
    let ghost all = lines(text@);
    assert(texts(ls@).len() == ls@.len());
    let mut i: usize = 0;
    assert(all.skip(0) =~= all);
    while i < ls.len()
        invariant
            i <= ls@.len(),
            texts(ls@) == all,
            all == lines(text@),
            all.len() == ls@.len(),
            first_marked(all) == first_marked(all.skip(i as int)),
        decreases ls@.len() - i,
    {
        assert(texts(ls@)[i as int] == ls@[i as int]@);
        assert(all.skip(i as int)[0] == all[i as int]);
        assert(all.skip(i as int).drop_first() =~= all.skip(i + 1));
        match marker_of(ls[i].as_slice()) {
            Some(p) => {
                return Some(string_of(p.as_slice()));
            },
            None => {},
        }
        i = i + 1;
    }
    let mut j: usize = 0;
    while j < ls.len()
        invariant
            j <= ls@.len(),
            texts(ls@) == all,
            all == lines(text@),
            all.len() == ls@.len(),
            first_marked(all) is None,
            first_quoted(all) == first_quoted(all.skip(j as int)),
        decreases ls@.len() - j,
    {
        assert(texts(ls@)[j as int] == ls@[j as int]@);
        assert(all.skip(j as int)[0] == all[j as int]);
        assert(all.skip(j as int).drop_first() =~= all.skip(j + 1));
        match quoted_of(ls[j].as_slice()) {
            Some(p) => {
                return Some(string_of(p.as_slice()));
            },
            None => {},
        }
        j = j + 1;
    }
    None
}

/// A wrapper runs the hook that was there with what it was given, keeps how that
/// ended, runs ours whatever comes of it, and ends as the first did.
pub proof fn a_wrapper_runs_the_original_first(original: Seq<char>, ours: Seq<char>)
    ensures
        ({
            let ls = wrapper_lines(original, ours);
            &&& wrapper(original, ours) == text_of(ls)
            &&& ls.len() == 7
            &&& ls[0] == "#!/usr/bin/env bash"@
            &&& ls[4] == "\""@ + original + "\" \"$@\"; rc=$?"@
            &&& ls[5] == "\""@ + ours + "\" \"$@\" >/dev/null 2>&1 || true"@
            &&& ls[6] == "exit \"$rc\""@
        }),
{
}

} // verus!

use vstd::prelude::*;

use crate::flow::Outcome;
use crate::text::{joined_by, split_on, strings_view};

verus! {

/// The text of the first capture group of the first match of `pattern` in
/// `text`; `None` where nothing matches or the pattern is invalid.
pub uninterp spec fn first_capture_of(pattern: Seq<char>, text: Seq<char>) -> Option<Seq<char>>;

/// Relies on regex::Regex::new and Regex::captures: the first group of the
/// leftmost match, which depends on the pattern and the text alone.
#[verifier::external_body]
fn first_capture(pattern: &str, text: &String) -> (r: Option<String>)
    ensures
        match r {
            Some(s) => first_capture_of(pattern@, text@) == Some(s@),
            None => first_capture_of(pattern@, text@) is None,
        },
{
    let re = regex::Regex::new(pattern).ok()?;
    let caps = re.captures(text)?;
    caps.get(1).map(|m| m.as_str().to_string())
}

/// Every newline written as the joining token `||`.
pub open spec fn bars_for_newlines(s: Seq<char>) -> Seq<char>
    decreases s.len(),
{
    if s.len() == 0 {
        Seq::empty()
    } else {
        bars_for_newlines(s.drop_last()) + (if s.last() == '\n' {
            seq!['|', '|']
        } else {
            seq![s.last()]
        })
    }
}

/// A file's text as the guard searches it: the joining token before the
/// first line, between each two lines and after the last, so that a
/// pattern can span lines and every line is preceded and followed by one.
pub open spec fn guard_text(content: Seq<char>) -> Seq<char> {
    seq!['|', '|'] + bars_for_newlines(content) + seq!['|', '|']
}

/// A `#define` of an identifier starting with `DEBUG_` at the start of a
/// line (after at most one whitespace character), up to the end of that
/// line. A commented-out define (`// #define DEBUG_X`) does not match,
/// since the comment stands between the line's start and `#define`; the
/// search knows nothing else of comments or string literals.
pub const DEBUG_DEFINE: &'static str = "\\|\\s?#define (DEBUG_[^\\s]*?)\\s*?\\|+?";

proof fn lemma_bars_concat(a: Seq<char>, b: Seq<char>)
    ensures
        bars_for_newlines(a + b) == bars_for_newlines(a) + bars_for_newlines(b),
    decreases b.len(),
{
    if b.len() == 0 {
        assert(a + b =~= a);
        assert(bars_for_newlines(a) + Seq::<char>::empty() =~= bars_for_newlines(a));
    } else {
        assert((a + b).drop_last() =~= a + b.drop_last());
        lemma_bars_concat(a, b.drop_last());
        assert((a + b).last() == b.last());
    }
}

proof fn lemma_bars_plain(s: Seq<char>)
    requires
        !s.contains('\n'),
    ensures
        bars_for_newlines(s) == s,
    decreases s.len(),
{
    if s.len() > 0 {
        assert(!s.drop_last().contains('\n')) by {
            if s.drop_last().contains('\n') {
                let k = choose|k: int| 0 <= k < s.drop_last().len() && s.drop_last()[k] == '\n';
                assert(s[k] == '\n');
            }
        }
        lemma_bars_plain(s.drop_last());
        assert(s[s.len() - 1] != '\n');
        assert(s.drop_last() + seq![s.last()] =~= s);
    }
}

/// The token-joined lines, as built by `joined_with_bars`.
pub open spec fn bar_joined(lines: Seq<Seq<char>>) -> Seq<char>
    decreases lines.len(),
{
    if lines.len() == 0 {
        seq!['|', '|']
    } else {
        bar_joined(lines.drop_last()) + lines.last() + seq!['|', '|']
    }
}

proof fn lemma_bar_joined(lines: Seq<Seq<char>>)
    requires
        lines.len() >= 1,
        forall|i: int| 0 <= i < lines.len() ==> !lines[i].contains('\n'),
    ensures
        bar_joined(lines) == guard_text(joined_by(lines, '\n')),
    decreases lines.len(),
{
    let bar = seq!['|', '|'];
    lemma_bars_plain(lines.last());
    if lines.len() == 1 {
        assert(lines.drop_last().len() == 0);
        assert(lines.last() == lines[0]);
        assert(bar_joined(lines.drop_last()) == bar);
        assert(bar_joined(lines) =~= guard_text(joined_by(lines, '\n')));
    } else {
        let pre = lines.drop_last();
        assert forall|i: int| 0 <= i < pre.len() implies !pre[i].contains('\n') by {
            assert(pre[i] == lines[i]);
        }
        lemma_bar_joined(pre);
        let nj = joined_by(pre, '\n');
        lemma_bars_concat(nj + seq!['\n'], lines.last());
        lemma_bars_concat(nj, seq!['\n']);
        let nl = seq!['\n'];
        assert(nl.drop_last() =~= Seq::<char>::empty());
        assert(nl.last() == '\n');
        assert(bars_for_newlines(nl.drop_last()) =~= Seq::<char>::empty());
        assert(bars_for_newlines(nl) =~= bar);
        assert(bar_joined(lines) =~= guard_text(joined_by(lines, '\n')));
    }
}

/// The lines of a file joined as the guard searches them.
fn joined_with_bars(lines: &Vec<String>) -> (r: String)
    ensures
        r@ == bar_joined(strings_view(lines@)),
{
    let ghost ls = strings_view(lines@);
    let mut r = String::new();
    proof {
        reveal_strlit("||");
    }
    r.append("||");
    let mut i: usize = 0;
    assert(ls.subrange(0, 0).len() == 0);
    assert(r@ =~= bar_joined(ls.subrange(0, 0)));
    while i < lines.len()
        invariant
            i <= lines.len(),
            ls == strings_view(lines@),
            r@ == bar_joined(ls.subrange(0, i as int)),
        decreases lines.len() - i,
    {
        r.append(lines[i].as_str());
        proof {
            reveal_strlit("||");
        }
        r.append("||");
        assert(ls.subrange(0, i + 1).drop_last() =~= ls.subrange(0, i as int));
        assert(ls.subrange(0, i + 1).last() == lines@[i as int]@);
        i = i + 1;
    }
    assert(ls.subrange(0, i as int) =~= ls);
    r
}

/// The first debug define in a file's text, if any.
pub fn debug_marker(content: &String) -> (r: Option<String>)
    ensures
        match first_capture_of(DEBUG_DEFINE@, guard_text(content@)) {
            Some(m) => r matches Some(s) && s@ == m,
            None => r is None,
        },
{
    let lines = split_on(content, '\n');
    let joined = joined_with_bars(&lines);
    proof {
        let ls = strings_view(lines@);
        assert forall|i: int| 0 <= i < ls.len() implies !ls[i].contains('\n') by {
            assert(ls[i] == lines@[i]@);
        }
        lemma_bar_joined(ls);
    }
    first_capture(DEBUG_DEFINE, &joined)
}

/// The message reporting `marker` found in the file at `path`.
pub open spec fn finding_message(path: Seq<char>, marker: Seq<char>) -> Seq<char> {
    marker + " was detected in "@ + path
}

/// The messages for the files in which a marker was found, in order.
pub open spec fn finding_messages(findings: Seq<(Seq<char>, Option<Seq<char>>)>) -> Seq<Seq<char>>
    decreases findings.len(),
{
    if findings.len() == 0 {
        Seq::empty()
    } else {
        let rest = finding_messages(findings.drop_last());
        match findings.last().1 {
            Some(m) => rest.push(finding_message(findings.last().0, m)),
            None => rest,
        }
    }
}

pub open spec fn findings_view(f: Seq<(String, Option<String>)>) -> Seq<(Seq<char>, Option<Seq<char>>)> {
    f.map_values(|p: (String, Option<String>)| (p.0@, match p.1 { Some(m) => Some(m@), None => None }))
}

/// What the guard reports for the given files and the marker found in each:
/// success where there is none; otherwise a failure whose error is the first
/// finding's message and whose messages are all findings' messages.
pub open spec fn guard_outcome_is(findings: Seq<(Seq<char>, Option<Seq<char>>)>, r: Outcome) -> bool {
    let msgs = finding_messages(findings);
    if msgs.len() == 0 {
        r is Success
    } else {
        r matches Outcome::Failure(e, m) && e@ == msgs[0] && m@.map_values(|s: String| s@) == msgs
    }
}

/// The outcome of the guard, given each staged file's path and the marker
/// found in it.
pub fn guard_outcome(findings: &Vec<(String, Option<String>)>) -> (r: Outcome)
    ensures
        guard_outcome_is(findings_view(findings@), r),
{
    let ghost fv = findings_view(findings@);
    let mut msgs: Vec<String> = Vec::new();
    let mut i: usize = 0;
    assert(fv.subrange(0, 0).len() == 0);
    assert(msgs@.map_values(|s: String| s@) =~= finding_messages(fv.subrange(0, 0)));
    while i < findings.len()
        invariant
            i <= findings.len(),
            fv == findings_view(findings@),
            msgs@.map_values(|s: String| s@) == finding_messages(fv.subrange(0, i as int)),
        decreases findings.len() - i,
    {
        let ghost pre = msgs@.map_values(|s: String| s@);
        assert(fv.subrange(0, i + 1).drop_last() =~= fv.subrange(0, i as int));
        assert(fv.subrange(0, i + 1).last() == fv[i as int]);
        match &findings[i].1 {
            Some(m) => {
                let mut msg = m.clone();
                msg.append(" was detected in ");
                msg.append(findings[i].0.as_str());
                msgs.push(msg);
                assert(msgs@.map_values(|s: String| s@) =~= pre.push(
                    finding_message(findings[i as int].0@, m@),
                ));
            },
            None => {},
        }
        i = i + 1;
    }
    assert(fv.subrange(0, i as int) =~= fv);
    if msgs.len() == 0 {
        Outcome::Success
    } else {
        let first = msgs[0].clone();
        Outcome::Failure(first, msgs)
    }
}

/// The debug-marker guard over staged files, each given by its path and
/// its text.
pub fn debug(files: &Vec<(String, String)>) -> (r: Outcome)
    ensures
        guard_outcome_is(
            files@.map_values(
                |p: (String, String)| (p.0@, first_capture_of(DEBUG_DEFINE@, guard_text(p.1@))),
            ),
            r,
        ),
{
    let mut findings: Vec<(String, Option<String>)> = Vec::new();
    let mut i: usize = 0;
    while i < files.len()
        invariant
            i <= files.len(),
            findings@.len() == i,
            forall|k: int|
                0 <= k < i ==> findings_view(findings@)[k] == (
                files@[k].0@,
                first_capture_of(DEBUG_DEFINE@, guard_text(files@[k].1@)),
            ),
        decreases files.len() - i,
    {
        let m = debug_marker(&files[i].1);
        let ghost pre = findings@;
        findings.push((files[i].0.clone(), m));
        assert forall|k: int| 0 <= k < i + 1 implies findings_view(findings@)[k] == (
            files@[k].0@,
            first_capture_of(DEBUG_DEFINE@, guard_text(files@[k].1@)),
        ) by {
            if k < i {
                assert(findings@[k] == pre[k]);
                assert(findings_view(pre)[k] == findings_view(findings@)[k]);
            }
        }
        i = i + 1;
    }
    let r = guard_outcome(&findings);
    assert(findings_view(findings@) =~= files@.map_values(
        |p: (String, String)| (p.0@, first_capture_of(DEBUG_DEFINE@, guard_text(p.1@))),
    ));
    r
}

} // verus!

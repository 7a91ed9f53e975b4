//! The decisions of the process watcher: which directory entries of `/proc`
//! are new processes, where their output and executable are found, and which
//! lines of a followed output are new.

use vstd::prelude::*;
use vstd::string::StringSliceAdditionalSpecFns;

use crate::numbers::{parse_usize, parse_usize_spec};

verus! {

/// The pid a `/proc` entry names, if it names a process that is not yet followed.
pub open spec fn new_process_spec(name: Seq<u8>, known: Seq<usize>) -> Option<usize> {
    match parse_usize_spec(name) {
        Some(pid) => if known.contains(pid) { None } else { Some(pid) },
        None => None,
    }
}

/// An entry is a new process exactly when its name reads as a pid that is
/// not among the known ones: a known pid is never reported again, and an
/// unknown one always is.
pub proof fn law_known_pids_are_not_new(name: Seq<u8>, known: Seq<usize>)
    ensures
        new_process_spec(name, known) matches Some(p) ==> parse_usize_spec(name) == Some(p) && !known.contains(p),
        parse_usize_spec(name) matches Some(p) ==> (!known.contains(p) ==> new_process_spec(name, known) == Some(p)),
        forall|j: int| 0 <= j < known.len() && parse_usize_spec(name) == Some(#[trigger] known[j])
            ==> new_process_spec(name, known) is None,
        parse_usize_spec(name) is None ==> new_process_spec(name, known) is None,
{
    assert forall|j: int| 0 <= j < known.len() && parse_usize_spec(name) == Some(#[trigger] known[j])
        implies new_process_spec(name, known) is None by {
        assert(known.contains(known[j]));
    }
}

/// The pid a `/proc` entry named `name` stands for, when the name is a number
/// and the process is not among `known`.
pub fn new_process(name: &str, known: &[usize]) -> (r: Option<usize>)
    ensures
        r == new_process_spec(name.spec_bytes(), known@),
        r matches Some(p) ==> !known@.contains(p),
{
    let pid = match parse_usize(name.as_bytes()) {
        Some(pid) => pid,
        None => { return None; },
    };
    let n = known.len();
    for i in 0..n
        invariant
            n == known@.len(),
            parse_usize_spec(name.spec_bytes()) == Some(pid),
            forall|j: int| 0 <= j < i ==> known@[j] != pid,
    {
        if known[i] == pid {
            proof {
                assert(known@[i as int] == pid);
                assert(known@.contains(pid));
            }
            return None;
        }
    }
    Some(pid)
}

/// The character of a decimal digit.
pub open spec fn digit_char(d: nat) -> char {
    if d == 0 { '0' } else if d == 1 { '1' } else if d == 2 { '2' } else if d == 3 { '3' }
    else if d == 4 { '4' } else if d == 5 { '5' } else if d == 6 { '6' } else if d == 7 { '7' }
    else if d == 8 { '8' } else { '9' }
}

/// The decimal digits of `n`.
pub open spec fn decimal_text(n: nat) -> Seq<char>
    decreases n,
{
    if n < 10 {
        seq![digit_char(n)]
    } else {
        decimal_text(n / 10) + seq![digit_char(n % 10)]
    }
}

/// The one-character text of the decimal digit `d`.
fn digit_text(d: usize) -> (r: &'static str)
    requires
        d < 10,
    ensures
        r@ == seq![digit_char(d as nat)],
{
    proof {
        reveal_strlit("0"); reveal_strlit("1"); reveal_strlit("2"); reveal_strlit("3");
        reveal_strlit("4"); reveal_strlit("5"); reveal_strlit("6"); reveal_strlit("7");
        reveal_strlit("8"); reveal_strlit("9");
    }
    if d == 0 { "0" } else if d == 1 { "1" } else if d == 2 { "2" } else if d == 3 { "3" }
    else if d == 4 { "4" } else if d == 5 { "5" } else if d == 6 { "6" } else if d == 7 { "7" }
    else if d == 8 { "8" } else { "9" }
}

/// Writes `n` in decimal.
pub fn decimal(n: usize) -> (r: String)
    ensures
        r@ == decimal_text(n as nat),
    decreases n,
{
    let mut s = if n < 10 { String::new() } else { decimal(n / 10) };
    s.append(digit_text(n % 10));
    proof {
        assert(s@ =~= decimal_text(n as nat));
    }
    s
}

/// `/proc/<pid>/fd/1`: where the standard output of process `pid` is found.
pub fn stdout_path(pid: usize) -> (r: String)
    ensures
        r@ == "/proc/"@ + decimal_text(pid as nat) + "/fd/1"@,
{
    let mut s = "/proc/".to_owned();
    let digits = decimal(pid);
    s.append(digits.as_str());
    s.append("/fd/1");
    s
}

/// `/proc/<pid>/exe`: the link to the executable of process `pid`.
pub fn exe_path(pid: usize) -> (r: String)
    ensures
        r@ == "/proc/"@ + decimal_text(pid as nat) + "/exe"@,
{
    let mut s = "/proc/".to_owned();
    let digits = decimal(pid);
    s.append(digits.as_str());
    s.append("/exe");
    s
}

/// The indices of the lines reported by one look at an output of
/// `line_count` lines when the lines up to index `pos` were dealt with: those
/// after `pos`, in order.
pub open spec fn reported_lines(pos: usize, line_count: usize) -> Seq<usize> {
    Seq::new(
        if line_count > pos + 1 { (line_count - pos - 1) as nat } else { 0 },
        |k: int| (pos + 1 + k) as usize,
    )
}

/// One look at a followed output of `line_count` lines when the lines up to
/// index `pos` were dealt with before: the indices of the lines to report, in
/// order, and the new position. The first line of an output is never
/// reported.
pub fn follow_step(pos: usize, line_count: usize) -> (r: (Vec<usize>, usize))
    ensures
        r.0@ == reported_lines(pos, line_count),
        r.1 == pos + r.0@.len(),
{
    let mut reported: Vec<usize> = Vec::new();
    let mut p = pos;
    for i in 0..line_count
        invariant
            pos <= p,
            p <= pos || p < i,
            p == pos + reported@.len(),
            p > pos ==> p == i - 1,
            reported@ =~= reported_lines(pos, i),
    {
        if i > p {
            reported.push(i);
            p = p + 1;
        }
    }
    (reported, p)
}

/// Following an output never reports a line twice: every line that a look
/// reports comes after every line that the look before it reported, the
/// second look starting from the position the first one returned.
pub proof fn law_follow_reports_each_line_once(pos: usize, n1: usize, n2: usize)
    requires
        pos + reported_lines(pos, n1).len() <= usize::MAX,
    ensures
        forall|a: int, b: int|
            0 <= a < reported_lines(pos, n1).len()
            && 0 <= b < reported_lines((pos + reported_lines(pos, n1).len()) as usize, n2).len()
            ==> #[trigger] reported_lines(pos, n1)[a]
                < #[trigger] reported_lines((pos + reported_lines(pos, n1).len()) as usize, n2)[b],
{
}

/// Whether, in a run of looks with positions `positions` and counts
/// `counts`, one of the first `k` looks reported line `line`.
pub open spec fn reported_before(positions: Seq<usize>, counts: Seq<usize>, k: int, line: usize) -> bool {
    exists|a: int, j: int|
        0 <= a < k && 0 <= j < reported_lines(positions[a], counts[a]).len()
        && #[trigger] reported_lines(positions[a], counts[a])[j] == line
}

/// A run of looks at a followed output, starting at position 0: `positions[i]`
/// is the position before look `i`, which sees `counts[i]` lines. Every line
/// up to the current position has been reported by some earlier look.
proof fn lemma_follow_reported_up_to(positions: Seq<usize>, counts: Seq<usize>, k: int)
    requires
        positions.len() == counts.len() + 1,
        positions[0] == 0,
        forall|i: int| 0 <= i < counts.len() ==> #[trigger] positions[i + 1]
            == positions[i] + reported_lines(positions[i], counts[i]).len(),
        0 <= k <= counts.len(),
    ensures
        forall|line: usize| 1 <= line <= positions[k] ==> #[trigger] reported_before(positions, counts, k, line),
    decreases k,
{
    if k > 0 {
        lemma_follow_reported_up_to(positions, counts, k - 1);
        let a = k - 1;
        let p = positions[a];
        assert(positions[a + 1] == p + reported_lines(p, counts[a]).len());
        assert(a + 1 == k);
        assert forall|line: usize| 1 <= line <= positions[k] implies #[trigger] reported_before(positions, counts, k, line) by {
            if line > p {
                let j = line - p - 1;
                assert(reported_lines(positions[a], counts[a])[j] == line);
            } else {
                assert(reported_before(positions, counts, k - 1, line));
            }
        }
    }
}

/// Following an output reports every line it reads except the first: over a
/// run of looks starting at position 0, each look leaving the position the
/// step returned, every line of index 1 up to the count seen by some look has
/// been reported by that look or an earlier one.
pub proof fn law_follow_reports_every_line(positions: Seq<usize>, counts: Seq<usize>)
    requires
        positions.len() == counts.len() + 1,
        positions[0] == 0,
        forall|i: int| 0 <= i < counts.len() ==> #[trigger] positions[i + 1]
            == positions[i] + reported_lines(positions[i], counts[i]).len(),
    ensures
        forall|i: int, line: usize| 0 <= i < counts.len() && 1 <= line < #[trigger] counts[i]
            ==> #[trigger] reported_before(positions, counts, i + 1, line),
{
    assert forall|i: int, line: usize| 0 <= i < counts.len() && 1 <= line < #[trigger] counts[i]
        implies #[trigger] reported_before(positions, counts, i + 1, line) by {
        lemma_follow_reported_up_to(positions, counts, i + 1);
        assert(positions[i + 1] == positions[i] + reported_lines(positions[i], counts[i]).len());
        assert(line <= positions[i + 1]);
    }
}

} // verus!

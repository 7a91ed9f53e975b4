//! Log lines gathered from several sources: ordering, merging, filtering and
//! walking through them.

use vstd::prelude::*;

use crate::text::{compare_str, contains_text, lemma_str_lt_order, str_lt, Order};
use crate::tracer::{date_from_timestamp, date_of, includes_all, includes_any, DateParts, Tracer};

verus! {

broadcast use vstd::seq_lib::group_to_multiset_ensures;

/// A log line as plain values: timestamp, host, service and message.
pub type LogLineView = (i64, Seq<char>, Seq<char>, Seq<char>);

/// One log line of any source, stamped in microseconds since the Unix epoch.
#[derive(Debug)]
pub struct LogLine {
    timestamp: i64,
    hostname: String,
    service: String,
    message: String,
}

impl View for LogLine {
    type V = LogLineView;

    closed spec fn view(&self) -> LogLineView {
        (self.timestamp, self.hostname@, self.service@, self.message@)
    }
}

impl Clone for LogLine {
    fn clone(&self) -> (r: Self)
        ensures
            r@ == self@,
    {
        LogLine {
            timestamp: self.timestamp,
            hostname: self.hostname.clone(),
            service: self.service.clone(),
            message: self.message.clone(),
        }
    }
}

/// The order of log lines: by timestamp, then host, then service, then
/// message, each string by its bytes (the order `derive(Ord)` gives the line).
pub open spec fn line_lt(x: LogLineView, y: LogLineView) -> bool {
    ||| x.0 < y.0
    ||| x.0 == y.0 && str_lt(x.1, y.1)
    ||| x.0 == y.0 && x.1 == y.1 && str_lt(x.2, y.2)
    ||| x.0 == y.0 && x.1 == y.1 && x.2 == y.2 && str_lt(x.3, y.3)
}

/// `line_lt` is a strict total order.
pub proof fn lemma_line_lt_order(x: LogLineView, y: LogLineView, z: LogLineView)
    ensures
        !line_lt(x, x),
        x != y ==> (line_lt(x, y) || line_lt(y, x)),
        !(line_lt(x, y) && line_lt(y, x)),
        line_lt(x, y) && line_lt(y, z) ==> line_lt(x, z),
{
    lemma_str_lt_order(x.1, y.1, z.1);
    lemma_str_lt_order(x.2, y.2, z.2);
    lemma_str_lt_order(x.3, y.3, z.3);
    lemma_str_lt_order(x.1, x.1, x.1);
    lemma_str_lt_order(x.2, x.2, x.2);
    lemma_str_lt_order(x.3, x.3, x.3);
}

/// A line stamped earlier comes before a line stamped later, whatever their
/// other fields.
pub proof fn law_earlier_lines_come_first(x: LogLineView, y: LogLineView)
    requires
        x.0 < y.0,
    ensures
        line_lt(x, y),
        !line_lt(y, x),
{
}

/// Lines in the order of lines are in time order: timestamps never decrease;
/// among lines of one timestamp the hosts come in byte order, then the
/// services, then the messages.
pub proof fn law_sorted_lines_are_in_time_order(s: Seq<LogLineView>)
    requires
        sorted_lines(s),
    ensures
        forall|i: int, j: int| 0 <= i < j < s.len() ==> (#[trigger] s[i]).0 <= (#[trigger] s[j]).0,
        forall|i: int, j: int| 0 <= i < j < s.len() && (#[trigger] s[i]).0 == (#[trigger] s[j]).0
            ==> !str_lt(s[j].1, s[i].1),
        forall|i: int, j: int| 0 <= i < j < s.len() && (#[trigger] s[i]).0 == (#[trigger] s[j]).0
            && s[i].1 == s[j].1 ==> !str_lt(s[j].2, s[i].2),
        forall|i: int, j: int| 0 <= i < j < s.len() && (#[trigger] s[i]).0 == (#[trigger] s[j]).0
            && s[i].1 == s[j].1 && s[i].2 == s[j].2 ==> !str_lt(s[j].3, s[i].3),
{
    assert forall|i: int, j: int| 0 <= i < j < s.len() && (#[trigger] s[i]).0 == (#[trigger] s[j]).0
        && s[i].1 == s[j].1 implies !str_lt(s[j].2, s[i].2) by {
        assert(!line_lt(s[j], s[i]));
    }
    assert forall|i: int, j: int| 0 <= i < j < s.len() && (#[trigger] s[i]).0 == (#[trigger] s[j]).0
        && s[i].1 == s[j].1 && s[i].2 == s[j].2 implies !str_lt(s[j].3, s[i].3) by {
        assert(!line_lt(s[j], s[i]));
    }
    assert forall|i: int, j: int| 0 <= i < j < s.len() implies (#[trigger] s[i]).0 <= (#[trigger] s[j]).0 by {
        assert(!line_lt(s[j], s[i]));
    }
    assert forall|i: int, j: int| 0 <= i < j < s.len() && (#[trigger] s[i]).0 == (#[trigger] s[j]).0
        implies !str_lt(s[j].1, s[i].1) by {
        assert(!line_lt(s[j], s[i]));
    }
}

/// Each line comes no later than every line after it.
pub open spec fn sorted_lines(s: Seq<LogLineView>) -> bool {
    forall|i: int, j: int| 0 <= i < j < s.len() ==> !line_lt(#[trigger] s[j], #[trigger] s[i])
}

/// The plain values of a sequence of lines.
pub open spec fn views(lines: Seq<LogLine>) -> Seq<LogLineView> {
    lines.map_values(|l: LogLine| l@)
}

/// `r` holds the lines of `a` and `b` together, in order.
pub open spec fn is_merge_of(r: Seq<LogLineView>, a: Seq<LogLineView>, b: Seq<LogLineView>) -> bool {
    &&& sorted_lines(r)
    &&& r.to_multiset() == (a + b).to_multiset()
}

impl LogLine {
    /// A line with the given fields.
    pub fn new(timestamp: i64, hostname: String, service: String, message: String) -> (r: LogLine)
        ensures
            r@ == (timestamp, hostname@, service@, message@),
    {
        LogLine { timestamp, hostname, service, message }
    }

    /// The timestamp, in microseconds since the Unix epoch.
    pub fn timestamp(&self) -> (r: i64)
        ensures
            r == self@.0,
    {
        self.timestamp
    }

    /// Whether `self` comes before `other` in the order of lines.
    pub fn less_than(&self, other: &LogLine) -> (r: bool)
        ensures
            r == line_lt(self@, other@),
    {
        if self.timestamp != other.timestamp {
            return self.timestamp < other.timestamp;
        }
        match compare_str(self.hostname.as_str(), other.hostname.as_str()) {
            Order::Less => { return true; },
            Order::Greater => {
                proof {
                    lemma_str_lt_order(self@.1, other@.1, other@.1);
                }
                return false;
            },
            Order::Equal => {},
        }
        match compare_str(self.service.as_str(), other.service.as_str()) {
            Order::Less => { return true; },
            Order::Greater => {
                proof {
                    lemma_str_lt_order(self@.2, other@.2, other@.2);
                }
                return false;
            },
            Order::Equal => {},
        }
        match compare_str(self.message.as_str(), other.message.as_str()) {
            Order::Less => true,
            _ => {
                proof {
                    lemma_str_lt_order(self@.3, other@.3, other@.3);
                }
                false
            },
        }
    }
}

impl Tracer for LogLine {
    open spec fn spec_date(&self) -> DateParts {
        date_of(self@.0)
    }

    open spec fn spec_service(&self) -> Seq<char> {
        self@.2
    }

    open spec fn spec_hostname(&self) -> Seq<char> {
        self@.1
    }

    open spec fn spec_message(&self) -> Seq<char> {
        self@.3
    }

    fn date(&self) -> (r: DateParts) {
        date_from_timestamp(self.timestamp)
    }

    fn service(&self) -> (r: String) {
        self.service.clone()
    }

    fn hostname(&self) -> (r: String) {
        self.hostname.clone()
    }

    fn message(&self) -> (r: String) {
        self.message.clone()
    }
}

/// Where `x` goes in the sorted `lines`: after every line that does not come after it.
fn insertion_point(lines: &Vec<LogLine>, x: &LogLine) -> (p: usize)
    requires
        sorted_lines(views(lines@)),
    ensures
        p <= lines@.len(),
        forall|i: int| 0 <= i < p ==> !line_lt(x@, #[trigger] lines@[i]@),
        p < lines@.len() ==> line_lt(x@, lines@[p as int]@),
{
    let n = lines.len();
    let mut p: usize = 0;
    while p < n
        invariant
            n == lines@.len(),
            p <= n,
            forall|i: int| 0 <= i < p ==> !line_lt(x@, #[trigger] lines@[i]@),
        decreases n - p,
    {
        if x.less_than(&lines[p]) {
            return p;
        }
        p = p + 1;
    }
    p
}

/// Inserting a line just before the first line that comes after it keeps a
/// sorted sequence sorted.
proof fn lemma_insert_sorted(s: Seq<LogLineView>, p: int, x: LogLineView)
    requires
        sorted_lines(s),
        0 <= p <= s.len(),
        forall|i: int| 0 <= i < p ==> !line_lt(x, #[trigger] s[i]),
        p < s.len() ==> line_lt(x, s[p]),
    ensures
        sorted_lines(s.insert(p, x)),
{
    let t = s.insert(p, x);
    assert forall|i: int, j: int| 0 <= i < j < t.len() implies !line_lt(#[trigger] t[j], #[trigger] t[i]) by {
        if j < p {
            assert(t[i] == s[i] && t[j] == s[j]);
        } else if j == p {
            assert(t[i] == s[i] && t[j] == x);
        } else if i > p {
            assert(t[i] == s[i - 1] && t[j] == s[j - 1]);
        } else if i < p {
            assert(t[i] == s[i] && t[j] == s[j - 1]);
        } else {
            assert(t[i] == x && t[j] == s[j - 1]);
            if j - 1 > p {
                assert(!line_lt(s[j - 1], s[p]));
            }
            lemma_line_lt_order(x, s[p], s[j - 1]);
            lemma_line_lt_order(s[p], s[j - 1], x);
            lemma_line_lt_order(s[j - 1], x, x);
        }
    }
}

/// Sorts lines into the order of lines.
pub fn sort_lines(lines: Vec<LogLine>) -> (r: Vec<LogLine>)
    ensures
        sorted_lines(views(r@)),
        views(r@).to_multiset() == views(lines@).to_multiset(),
{
    let mut rest = lines;
    let mut out: Vec<LogLine> = Vec::new();
    proof {
        assert(views(out@) =~= Seq::<LogLineView>::empty());
        assert(views(out@).to_multiset().add(views(rest@).to_multiset()) =~= views(lines@).to_multiset());
    }
    while rest.len() > 0
        invariant
            sorted_lines(views(out@)),
            views(out@).to_multiset().add(views(rest@).to_multiset()) == views(lines@).to_multiset(),
        decreases rest@.len(),
    {
        let ghost before_rest = rest@;
        let ghost before_out = views(out@);
        let x = rest.pop().unwrap();
        proof {
            assert(views(before_rest) =~= views(rest@).push(x@));
        }
        let p = insertion_point(&out, &x);
        out.insert(p, x);
        proof {
            assert(views(out@) =~= before_out.insert(p as int, x@));
            lemma_insert_sorted(before_out, p as int, x@);
        }
    }
    proof {
        assert(views(rest@) =~= Seq::<LogLineView>::empty());
        assert(views(out@).to_multiset().add(views(rest@).to_multiset()) =~= views(out@).to_multiset());
    }
    out
}

/// Two sorted sequences that hold the same lines are equal.
pub proof fn lemma_sorted_unique(a: Seq<LogLineView>, b: Seq<LogLineView>)
    requires
        sorted_lines(a),
        sorted_lines(b),
        a.to_multiset() == b.to_multiset(),
    ensures
        a == b,
    decreases a.len(),
{
    vstd::seq_lib::to_multiset_len(a);
    vstd::seq_lib::to_multiset_len(b);
    if a.len() == 0 {
        assert(a =~= b);
    } else {
        let x = a[0];
        let y = b[0];
        vstd::seq_lib::to_multiset_contains(a, y);
        vstd::seq_lib::to_multiset_contains(b, x);
        assert(a.to_multiset().count(x) > 0) by {
            vstd::seq_lib::to_multiset_contains(a, x);
            assert(a.contains(x));
        }
        assert(b.to_multiset().count(y) > 0) by {
            vstd::seq_lib::to_multiset_contains(b, y);
            assert(b.contains(y));
        }
        let k = choose|k: int| 0 <= k < b.len() && b[k] == x;
        let m = choose|m: int| 0 <= m < a.len() && a[m] == y;
        if k > 0 {
            assert(!line_lt(b[k], b[0]));
        }
        if m > 0 {
            assert(!line_lt(a[m], a[0]));
        }
        lemma_line_lt_order(x, y, y);
        lemma_line_lt_order(x, x, x);
        assert(x == y);
        vstd::seq_lib::to_multiset_remove(a, 0);
        vstd::seq_lib::to_multiset_remove(b, 0);
        assert(a.remove(0) =~= a.drop_first());
        assert(b.remove(0) =~= b.drop_first());
        lemma_sorted_unique(a.drop_first(), b.drop_first());
        assert(a =~= seq![x] + a.drop_first());
        assert(b =~= seq![y] + b.drop_first());
    }
}

/// Merging is deterministic and does not depend on which side a line came
/// from: any two merges of `a` with `b` and of `b` with `a` are the same lines
/// in the same order.
pub proof fn law_merge_unique(a: Seq<LogLineView>, b: Seq<LogLineView>, r1: Seq<LogLineView>, r2: Seq<LogLineView>)
    requires
        is_merge_of(r1, a, b),
        is_merge_of(r2, b, a),
    ensures
        r1 == r2,
{
    vstd::seq_lib::lemma_multiset_commutative(a, b);
    vstd::seq_lib::lemma_multiset_commutative(b, a);
    assert(r1.to_multiset() =~= r2.to_multiset());
    lemma_sorted_unique(r1, r2);
}

/// The lines a source offers.
pub trait LogSource {
    /// The lines the source offers, as plain values.
    spec fn spec_source_lines(&self) -> Seq<LogLineView>;

    fn lines(&self) -> (r: Vec<LogLine>)
        ensures
            views(r@) == self.spec_source_lines(),
    ;
}

/// A sequence of log lines with a cursor for reading them one by one.
pub struct Logs {
    lines: Vec<LogLine>,
    line_idx: usize,
}

/// The lines of `lines` whose message contains every word of `wanted` and
/// none of `unwanted`.
pub open spec fn kept_lines(lines: Seq<LogLineView>, unwanted: Seq<&str>, wanted: Seq<&str>) -> Seq<LogLineView> {
    lines.filter(|l: LogLineView| includes_all(l.3, wanted) && !includes_any(l.3, unwanted))
}

proof fn lemma_filter_twice(s: Seq<LogLineView>, p: spec_fn(LogLineView) -> bool)
    ensures
        s.filter(p).filter(p) == s.filter(p),
    decreases s.len(),
{
    reveal_with_fuel(Seq::<_>::filter, 1);
    if s.len() > 0 {
        lemma_filter_twice(s.drop_last(), p);
        let sub = s.drop_last().filter(p);
        if p(s.last()) {
            sub.lemma_filter_push(s.last(), p);
        }
    }
}

proof fn lemma_filter_all(s: Seq<LogLineView>, p: spec_fn(LogLineView) -> bool)
    requires
        forall|l: LogLineView| #[trigger] p(l),
    ensures
        s.filter(p) == s,
    decreases s.len(),
{
    reveal_with_fuel(Seq::<_>::filter, 1);
    if s.len() > 0 {
        lemma_filter_all(s.drop_last(), p);
        assert(s.drop_last().push(s.last()) =~= s);
    } else {
        assert(s.filter(p) =~= s);
    }
}

/// Filtering by no words keeps every line.
pub proof fn law_filter_without_words_keeps_all(lines: Seq<LogLineView>, unwanted: Seq<&str>, wanted: Seq<&str>)
    requires
        unwanted.len() == 0,
        wanted.len() == 0,
    ensures
        kept_lines(lines, unwanted, wanted) == lines,
{
    let p = |l: LogLineView| includes_all(l.3, wanted) && !includes_any(l.3, unwanted);
    assert forall|l: LogLineView| #[trigger] p(l) by {}
    lemma_filter_all(lines, p);
}

proof fn lemma_filter_stronger(s: Seq<LogLineView>, p1: spec_fn(LogLineView) -> bool, p2: spec_fn(LogLineView) -> bool)
    requires
        forall|l: LogLineView| #[trigger] p2(l) ==> p1(l),
    ensures
        s.filter(p2) == s.filter(p1).filter(p2),
    decreases s.len(),
{
    reveal_with_fuel(Seq::<_>::filter, 1);
    if s.len() > 0 {
        lemma_filter_stronger(s.drop_last(), p1, p2);
        let sub = s.drop_last().filter(p1);
        if p1(s.last()) {
            sub.lemma_filter_push(s.last(), p2);
        }
    }
}

/// Every word of `a` is (as text) among the words of `b`.
pub open spec fn words_among(a: Seq<&str>, b: Seq<&str>) -> bool {
    forall|i: int| 0 <= i < a.len() ==> exists|j: int| 0 <= j < b.len() && (#[trigger] a[i])@ == (#[trigger] b[j])@
}

/// More words never let more lines through: with more unwanted and more
/// wanted words, the kept lines are exactly those of the kept lines with
/// fewer words that also pass the stricter test, so they form a subsequence
/// of them.
pub proof fn law_filter_more_words_keeps_subsequence(
    lines: Seq<LogLineView>,
    unwanted1: Seq<&str>,
    wanted1: Seq<&str>,
    unwanted2: Seq<&str>,
    wanted2: Seq<&str>,
)
    requires
        words_among(unwanted1, unwanted2),
        words_among(wanted1, wanted2),
    ensures
        kept_lines(lines, unwanted2, wanted2) == kept_lines(kept_lines(lines, unwanted1, wanted1), unwanted2, wanted2),
{
    let p1 = |l: LogLineView| includes_all(l.3, wanted1) && !includes_any(l.3, unwanted1);
    let p2 = |l: LogLineView| includes_all(l.3, wanted2) && !includes_any(l.3, unwanted2);
    assert forall|l: LogLineView| #[trigger] p2(l) implies p1(l) by {
        assert forall|i: int| 0 <= i < wanted1.len() implies contains_text(l.3, (#[trigger] wanted1[i])@) by {
            let j = choose|j: int| 0 <= j < wanted2.len() && wanted1[i]@ == (#[trigger] wanted2[j])@;
            assert(contains_text(l.3, wanted2[j]@));
        }
        if includes_any(l.3, unwanted1) {
            let i = choose|i: int| 0 <= i < unwanted1.len() && contains_text(l.3, (#[trigger] unwanted1[i])@);
            let j = choose|j: int| 0 <= j < unwanted2.len() && unwanted1[i]@ == (#[trigger] unwanted2[j])@;
            assert(contains_text(l.3, unwanted2[j]@));
        }
    }
    lemma_filter_stronger(lines, p1, p2);
}

/// Filtering the filtered lines again by the same words changes nothing.
pub proof fn law_filter_idempotent(lines: Seq<LogLineView>, unwanted: Seq<&str>, wanted: Seq<&str>)
    ensures
        kept_lines(kept_lines(lines, unwanted, wanted), unwanted, wanted) == kept_lines(lines, unwanted, wanted),
{
    let p = |l: LogLineView| includes_all(l.3, wanted) && !includes_any(l.3, unwanted);
    lemma_filter_twice(lines, p);
}

/// One step of reading lines with the cursor at `idx`: the line under the
/// cursor and the cursor after it, or nothing and the cursor unmoved once
/// every line was read.
pub open spec fn next_result(lines: Seq<LogLineView>, idx: int) -> (Option<LogLineView>, int) {
    if 0 <= idx < lines.len() {
        (Some(lines[idx]), idx + 1)
    } else {
        (None, idx)
    }
}

/// The lines that repeated steps yield from cursor `idx` until a step yields nothing.
pub open spec fn read_from(lines: Seq<LogLineView>, idx: int) -> Seq<LogLineView>
    decreases lines.len() - idx,
{
    if 0 <= idx < lines.len() {
        seq![next_result(lines, idx).0.unwrap()] + read_from(lines, next_result(lines, idx).1)
    } else {
        Seq::empty()
    }
}

proof fn lemma_read_from(lines: Seq<LogLineView>, idx: int)
    requires
        0 <= idx <= lines.len(),
    ensures
        read_from(lines, idx) == lines.subrange(idx, lines.len() as int),
    decreases lines.len() - idx,
{
    if idx < lines.len() {
        lemma_read_from(lines, idx + 1);
        assert(lines.subrange(idx, lines.len() as int) =~= seq![lines[idx]] + lines.subrange(idx + 1, lines.len() as int));
    } else {
        assert(lines.subrange(idx, lines.len() as int) =~= Seq::<LogLineView>::empty());
    }
}

/// Reading the lines one step at a time yields each line from the cursor on
/// once, in order (from the first line, all of them); and once a step yields
/// nothing, so does every later step.
pub proof fn law_reading_yields_lines_in_order(lines: Seq<LogLineView>, idx: int)
    requires
        0 <= idx <= lines.len(),
    ensures
        read_from(lines, idx) == lines.subrange(idx, lines.len() as int),
        read_from(lines, 0) == lines,
        next_result(lines, lines.len() as int) == (None::<LogLineView>, lines.len() as int),
        next_result(lines, idx).0 is None ==> next_result(lines, next_result(lines, idx).1).0 is None,
{
    lemma_read_from(lines, idx);
    lemma_read_from(lines, 0);
    assert(lines.subrange(0, lines.len() as int) =~= lines);
}

impl Logs {
    /// The lines, as plain values.
    pub closed spec fn spec_lines(&self) -> Seq<LogLineView> {
        views(self.lines@)
    }

    /// The position of the next line to read.
    pub closed spec fn spec_line_idx(&self) -> usize {
        self.line_idx
    }

    /// Logs holding `lines`, with the cursor at the first line.
    pub fn new(lines: Vec<LogLine>) -> (r: Logs)
        ensures
            r.spec_lines() == views(lines@),
            r.spec_line_idx() == 0,
    {
        Logs { lines, line_idx: 0 }
    }

    /// Logs holding the lines of `source`, with the cursor at the first line.
    pub fn new_from<T: LogSource>(source: T) -> (r: Self)
        ensures
            r.spec_lines() == source.spec_source_lines(),
            r.spec_line_idx() == 0,
    {
        Logs { lines: source.lines(), line_idx: 0 }
    }

    /// New logs holding the lines of `self` and of `other` together, in order;
    /// `self` is left as it was.
    pub fn merge(&mut self, other: Self) -> (r: Self)
        ensures
            final(self).spec_lines() == old(self).spec_lines(),
            final(self).spec_line_idx() == old(self).spec_line_idx(),
            is_merge_of(r.spec_lines(), old(self).spec_lines(), other.spec_lines()),
            forall|i: int, j: int| 0 <= i < j < r.spec_lines().len()
                ==> (#[trigger] r.spec_lines()[i]).0 <= (#[trigger] r.spec_lines()[j]).0,
            r.spec_line_idx() == 0,
    {
        let mut lines: Vec<LogLine> = Vec::new();
        let n = self.lines.len();
        for i in 0..n
            invariant
                n == self.lines@.len(),
                self.lines@ == old(self).lines@,
                self.line_idx == old(self).line_idx,
                views(lines@) =~= views(self.lines@).take(i as int),
        {
            let line = self.lines[i].clone();
            let ghost bl = lines@;
            lines.push(line);
            proof {
                assert(views(lines@) =~= views(bl).push(self.lines@[i as int]@));
                assert(views(self.lines@).take(i + 1) =~= views(self.lines@).take(i as int).push(self.lines@[i as int]@));
            }
        }
        proof {
            assert(views(self.lines@).take(n as int) =~= views(self.lines@));
        }
        let ghost own = lines@;
        let mut others = other.lines;
        lines.append(&mut others);
        proof {
            assert(views(lines@) =~= views(own) + views(other.lines@));
        }
        let sorted = sort_lines(lines);
        proof {
            law_sorted_lines_are_in_time_order(views(sorted@));
        }
        Self::new(sorted)
    }

    /// New logs holding the lines whose message contains every word of
    /// `wanted` and none of `unwanted`, in their order, with the cursor at the
    /// first line.
    pub fn filter_logs(&self, unwanted: &[&str], wanted: &[&str]) -> (r: Logs)
        ensures
            r.spec_lines() == kept_lines(self.spec_lines(), unwanted@, wanted@),
            r.spec_line_idx() == 0,
    {
        let mut lines: Vec<LogLine> = Vec::new();
        let n = self.lines.len();
        let ghost pred = |l: LogLineView| includes_all(l.3, wanted@) && !includes_any(l.3, unwanted@);
        for i in 0..n
            invariant
                n == self.lines@.len(),
                pred == (|l: LogLineView| includes_all(l.3, wanted@) && !includes_any(l.3, unwanted@)),
                views(lines@) =~= views(self.lines@).take(i as int).filter(pred),
        {
            let x = &self.lines[i];
            proof {
                reveal_with_fuel(Seq::<_>::filter, 1);
                assert(views(self.lines@).take(i + 1).drop_last() =~= views(self.lines@).take(i as int));
            }
            if x.includes(wanted) && !x.excludes(unwanted) {
                let line = x.clone();
                lines.push(line);
            }
        }
        proof {
            assert(views(self.lines@).take(n as int) =~= views(self.lines@));
        }
        Logs { lines, line_idx: 0 }
    }

    /// The line under the cursor, moving the cursor on; `None` once every line was read.
    pub fn next(&mut self) -> (r: Option<LogLine>)
        ensures
            final(self).spec_lines() == old(self).spec_lines(),
            next_result(old(self).spec_lines(), old(self).spec_line_idx() as int) == (
                match r {
                    Some(line) => Some(line@),
                    None => None::<LogLineView>,
                },
                final(self).spec_line_idx() as int,
            ),
            old(self).spec_line_idx() < old(self).spec_lines().len() ==> {
                &&& r matches Some(line) && line@ == old(self).spec_lines()[old(self).spec_line_idx() as int]
                &&& final(self).spec_line_idx() == old(self).spec_line_idx() + 1
            },
            old(self).spec_line_idx() >= old(self).spec_lines().len() ==> {
                &&& r is None
                &&& final(self).spec_line_idx() == old(self).spec_line_idx()
            },
    {
        if self.line_idx < self.lines.len() {
            let line = self.lines[self.line_idx].clone();
            self.line_idx = self.line_idx + 1;
            Some(line)
        } else {
            None
        }
    }

    /// How many lines the logs hold.
    pub fn len(&self) -> (r: usize)
        ensures
            r == self.spec_lines().len(),
    {
        self.lines.len()
    }
}

} // verus!

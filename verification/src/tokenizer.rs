//! Splitting streamed text into log lines at the places where a separator
//! pattern matches.

use vstd::prelude::*;
use vstd::string::StringSliceAdditionalSpecFns;
use vstd::utf8::*;

use crate::token::LogLineToken;
use crate::pattern::{match_spans, regex_match_spans, spans_well_formed, Pattern};
use crate::text::{byte_len, byte_slice, concat_chars, lemma_decode_extend};

verus! {

broadcast use vstd::utf8::encode_utf8_valid_utf8;

/// The start offsets of the separator's matches, followed by the text's length.
pub open spec fn cut_points(pattern: Seq<char>, text: Seq<char>) -> Seq<usize> {
    regex_match_spans(pattern, text).map_values(|s: (usize, usize)| s.0).push(
        encode_utf8(text).len() as usize,
    )
}

/// Walks the cut points from left to right, starting at offset 0: each cut
/// point that differs from the current offset closes the range that began at
/// the current offset. Returns the closed ranges and the final offset.
pub open spec fn cut_walk(points: Seq<usize>) -> (Seq<(int, int)>, int)
    decreases points.len(),
{
    if points.len() == 0 {
        (Seq::empty(), 0)
    } else {
        let (ranges, lhs) = cut_walk(points.drop_last());
        let rhs = points.last() as int;
        if rhs == lhs {
            (ranges, lhs)
        } else {
            (ranges.push((lhs, rhs)), rhs)
        }
    }
}

/// The byte ranges of the pieces that `split_text` cuts `text` into.
pub open spec fn split_ranges(pattern: Seq<char>, text: Seq<char>) -> Seq<(int, int)> {
    cut_walk(cut_points(pattern, text)).0
}

/// The pieces, as text, that `split_text` cuts `text` into.
pub open spec fn split_pieces(pattern: Seq<char>, text: Seq<char>) -> Seq<Seq<char>> {
    split_ranges(pattern, text).map_values(
        |r: (int, int)| decode_utf8(encode_utf8(text).subrange(r.0, r.1)),
    )
}

/// Concatenation of a sequence of byte strings.
pub open spec fn concat_bytes(pieces: Seq<Seq<u8>>) -> Seq<u8>
    decreases pieces.len(),
{
    if pieces.len() == 0 {
        Seq::empty()
    } else {
        concat_bytes(pieces.drop_last()) + pieces.last()
    }
}

/// Nondecreasing offsets, all within `len`, all on character boundaries of `bytes`.
pub open spec fn sorted_points(points: Seq<usize>, bytes: Seq<u8>) -> bool {
    &&& forall|i: int, j: int| 0 <= i <= j < points.len() ==> points[i] <= points[j]
    &&& forall|i: int| 0 <= i < points.len() ==> #[trigger] points[i] <= bytes.len()
    &&& forall|i: int| 0 <= i < points.len() ==> is_char_boundary(bytes, #[trigger] points[i] as int)
}

proof fn lemma_cut_walk(points: Seq<usize>, bytes: Seq<u8>)
    requires
        valid_utf8(bytes),
        sorted_points(points, bytes),
    ensures
        ({
            let (ranges, lhs) = cut_walk(points);
            &&& 0 <= lhs <= bytes.len()
            &&& points.len() > 0 ==> lhs == points.last()
            &&& concat_bytes(ranges.map_values(|r: (int, int)| bytes.subrange(r.0, r.1)))
                =~= bytes.subrange(0, lhs)
            &&& concat_chars(ranges.map_values(|r: (int, int)| decode_utf8(bytes.subrange(r.0, r.1))))
                =~= decode_utf8(bytes.subrange(0, lhs))
            &&& is_char_boundary(bytes, lhs)
            &&& forall|k: int| 0 <= k < ranges.len() ==> {
                &&& 0 <= (#[trigger] ranges[k]).0 < ranges[k].1 <= lhs
                &&& is_char_boundary(bytes, ranges[k].0)
                &&& is_char_boundary(bytes, ranges[k].1)
            }
        }),
    decreases points.len(),
{
    if points.len() > 0 {
        let prev = points.drop_last();
        lemma_cut_walk(prev, bytes);
        let (ranges, lhs) = cut_walk(prev);
        let rhs = points.last() as int;
        if prev.len() > 0 {
            assert(prev.last() == points[points.len() - 2]);
        }
        assert(lhs <= rhs);
        if rhs != lhs {
            let f = |r: (int, int)| bytes.subrange(r.0, r.1);
            let g = |r: (int, int)| decode_utf8(bytes.subrange(r.0, r.1));
            let nr = ranges.push((lhs, rhs));
            assert(nr.map_values(f).drop_last() =~= ranges.map_values(f));
            assert(nr.map_values(g).drop_last() =~= ranges.map_values(g));
            if prev.len() == 0 {
                vstd::utf8::is_char_boundary_start_end_of_seq(bytes);
            }
            lemma_decode_extend(bytes, lhs, rhs);
        }
    } else {
        vstd::utf8::is_char_boundary_start_end_of_seq(bytes);
        assert(bytes.subrange(0, 0) =~= Seq::<u8>::empty());
    }
}

/// Every match of the separator gives one cut point, its start, in the order
/// of the matches; the text's byte length closes the list.
pub proof fn law_every_match_is_a_cut_point(pattern: Seq<char>, text: Seq<char>)
    ensures
        cut_points(pattern, text).len() == regex_match_spans(pattern, text).len() + 1,
        forall|i: int| 0 <= i < regex_match_spans(pattern, text).len()
            ==> cut_points(pattern, text)[i] == (#[trigger] regex_match_spans(pattern, text)[i]).0,
        cut_points(pattern, text).last() == encode_utf8(text).len() as usize,
{
}

proof fn lemma_cut_walk_starts(points: Seq<usize>)
    ensures
        points.len() > 0 ==> cut_walk(points).1 == points.last() as int,
        forall|j: int| 0 <= j < points.len() ==> {
            ||| (#[trigger] points[j]) == 0
            ||| points[j] as int == cut_walk(points).1
            ||| exists|k: int| 0 <= k < cut_walk(points).0.len() && (#[trigger] cut_walk(points).0[k]).0 == points[j] as int
        },
    decreases points.len(),
{
    if points.len() > 0 {
        let prev = points.drop_last();
        lemma_cut_walk_starts(prev);
        let (ranges, lhs) = cut_walk(prev);
        let rhs = points.last() as int;
        let cw = cut_walk(points);
        assert(cw == (if rhs == lhs { (ranges, lhs) } else { (ranges.push((lhs, rhs)), rhs) }));
        assert forall|j: int| 0 <= j < points.len() implies {
            ||| (#[trigger] points[j]) == 0
            ||| points[j] as int == cut_walk(points).1
            ||| exists|k: int| 0 <= k < cut_walk(points).0.len() && (#[trigger] cut_walk(points).0[k]).0 == points[j] as int
        } by {
            if j < prev.len() {
                assert(points[j] == prev[j]);
                if points[j] != 0 && points[j] as int != cw.1 {
                    if points[j] as int == lhs {
                        assert(rhs != lhs);
                        assert(cw.0[ranges.len() as int].0 == points[j] as int);
                    } else {
                        let k = choose|k: int| 0 <= k < ranges.len() && (#[trigger] ranges[k]).0 == prev[j] as int;
                        assert(cw.0[k] == ranges[k]);
                        assert(cw.0[k].0 == points[j] as int);
                    }
                }
            }
        }
    }
}

/// Every match of the separator that starts inside the text, after its first
/// byte, begins a piece of `split_text`: later matches are never glued onto
/// earlier lines.
pub proof fn law_every_match_starts_a_piece(pattern: Seq<char>, text: Seq<char>)
    requires
        encode_utf8(text).len() <= usize::MAX,
    ensures
        forall|i: int| 0 <= i < regex_match_spans(pattern, text).len()
            && 0 < (#[trigger] regex_match_spans(pattern, text)[i]).0 < encode_utf8(text).len()
            ==> exists|k: int| 0 <= k < split_ranges(pattern, text).len()
                && (#[trigger] split_ranges(pattern, text)[k]).0 == regex_match_spans(pattern, text)[i].0 as int,
{
    let points = cut_points(pattern, text);
    let spans = regex_match_spans(pattern, text);
    lemma_cut_walk_starts(points);
    assert forall|i: int| 0 <= i < spans.len() && 0 < (#[trigger] spans[i]).0 < encode_utf8(text).len()
        implies exists|k: int| 0 <= k < split_ranges(pattern, text).len()
            && (#[trigger] split_ranges(pattern, text)[k]).0 == spans[i].0 as int by {
        assert(points[i] == spans[i].0);
        assert(points.last() == encode_utf8(text).len());
        assert(points[i] != 0 && points[i] as int != cut_walk(points).1);
        let k = choose|k: int| 0 <= k < cut_walk(points).0.len() && (#[trigger] cut_walk(points).0[k]).0 == points[i] as int;
        assert(split_ranges(pattern, text)[k].0 == spans[i].0 as int);
    }
}

/// The start offsets of the separator's matches in `text`, followed by the
/// byte length of `text`.
pub fn find_indices(separator: &Pattern, text: &str) -> (r: Vec<usize>)
    ensures
        r@ == cut_points(separator@, text@),
        sorted_points(r@, text.spec_bytes()),
        r@.last() == text.spec_bytes().len(),
        r@.len() == regex_match_spans(separator@, text@).len() + 1,
        forall|i: int| 0 <= i < regex_match_spans(separator@, text@).len()
            ==> r@[i] == (#[trigger] regex_match_spans(separator@, text@)[i]).0,
{
    let spans = match_spans(separator, text);
    let mut indices: Vec<usize> = Vec::new();
    let n = spans.len();
    for i in 0..n
        invariant
            n == spans@.len(),
            spans@ == regex_match_spans(separator@, text@),
            spans_well_formed(spans@, text.spec_bytes()),
            indices@ =~= spans@.take(i as int).map_values(|s: (usize, usize)| s.0),
    {
        indices.push(spans[i].0);
    }
    let len = byte_len(text);
    proof {
        vstd::utf8::is_char_boundary_start_end_of_seq(text.spec_bytes());
        assert(spans@.take(n as int) =~= spans@);
    }
    indices.push(len);
    proof {
        let bytes = text.spec_bytes();
        let pts = indices@;
        assert forall|i: int| 0 <= i < pts.len() - 1 implies #[trigger] pts[i] == spans@[i].0
            && spans@[i].0 <= spans@[i].1 <= bytes.len() by {
            assert(spans_well_formed(spans@, bytes));
            assert(spans@[i].0 <= spans@[i].1 <= bytes.len());
        }
        assert forall|i: int, j: int| 0 <= i <= j < pts.len() implies pts[i] <= pts[j] by {
            if j < pts.len() - 1 {
                lemma_spans_ordered(spans@, bytes, i, j);
            }
        }
        assert forall|i: int| 0 <= i < pts.len() implies is_char_boundary(bytes, #[trigger] pts[i] as int) by {
            if i < pts.len() - 1 {
                assert(spans_well_formed(spans@, bytes));
                assert(spans@[i].0 <= spans@[i].1);
            }
        }
    }
    indices
}

proof fn lemma_spans_ordered(spans: Seq<(usize, usize)>, bytes: Seq<u8>, i: int, j: int)
    requires
        spans_well_formed(spans, bytes),
        0 <= i <= j < spans.len(),
    ensures
        spans[i].0 <= spans[j].0,
    decreases j - i,
{
    if i < j {
        lemma_spans_ordered(spans, bytes, i + 1, j);
        assert(spans[i].0 <= spans[i].1);
        assert(spans[i].1 <= spans[i + 1].0);
    }
}

/// Cuts `text` at every match of `separator`: each piece but the first begins
/// where a match begins, empty pieces are left out, and the pieces, joined in
/// order, give back `text`.
pub fn split_text<'a>(separator: &Pattern, text: &'a str) -> (r: Vec<&'a str>)
    ensures
        r@.len() == split_ranges(separator@, text@).len(),
        forall|k: int| 0 <= k < r@.len() ==> (#[trigger] r@[k]).spec_bytes()
            == text.spec_bytes().subrange(
                split_ranges(separator@, text@)[k].0,
                split_ranges(separator@, text@)[k].1,
            ),
        concat_bytes(r@.map_values(|s: &str| s.spec_bytes())) == text.spec_bytes(),
        r@.map_values(|s: &str| s@) == split_pieces(separator@, text@),
        concat_chars(r@.map_values(|s: &str| s@)) == text@,
        forall|k: int| 0 <= k < r@.len() ==> (#[trigger] r@[k]).spec_bytes().len() > 0,
        forall|k: int| 0 <= k < r@.len() ==> (#[trigger] r@[k])@.len() > 0,
        forall|i: int| 0 <= i < regex_match_spans(separator@, text@).len()
            && 0 < (#[trigger] regex_match_spans(separator@, text@)[i]).0 < text.spec_bytes().len()
            ==> exists|k: int| 0 <= k < split_ranges(separator@, text@).len()
                && (#[trigger] split_ranges(separator@, text@)[k]).0
                    == regex_match_spans(separator@, text@)[i].0 as int,
{
    let indices = find_indices(separator, text);
    proof {
        law_every_match_starts_a_piece(separator@, text@);
    }
    let ghost bytes = text.spec_bytes();
    let mut slices: Vec<&'a str> = Vec::new();
    let mut lhs: usize = 0;
    let n = indices.len();
    for i in 0..n
        invariant
            n == indices@.len(),
            indices@ == cut_points(separator@, text@),
            sorted_points(indices@, bytes),
            bytes == text.spec_bytes(),
            cut_walk(indices@.take(i as int)).1 == lhs as int,
            slices@.len() == cut_walk(indices@.take(i as int)).0.len(),
            forall|k: int| 0 <= k < slices@.len() ==> (#[trigger] slices@[k]).spec_bytes()
                == bytes.subrange(
                    cut_walk(indices@.take(i as int)).0[k].0,
                    cut_walk(indices@.take(i as int)).0[k].1,
                ),
    {
        let ghost pre = indices@.take(i as int);
        proof {
            assert(indices@.take(i + 1).drop_last() =~= pre);
            lemma_cut_walk(pre, bytes);
            lemma_cut_walk(indices@.take(i + 1), bytes);
            assert(sorted_points(pre, bytes));
            if i > 0 {
                assert(pre.last() == indices@[i - 1]);
            } else {
                vstd::utf8::is_char_boundary_start_end_of_seq(bytes);
            }
        }
        let rhs = indices[i];
        if rhs != lhs {
            let piece = byte_slice(text, lhs, rhs);
            slices.push(piece);
            lhs = rhs;
        }
    }
    proof {
        assert(indices@.take(n as int) =~= indices@);
        lemma_cut_walk(indices@, bytes);
        let ranges = cut_walk(indices@).0;
        let f = |r: (int, int)| bytes.subrange(r.0, r.1);
        assert(slices@.map_values(|s: &str| s.spec_bytes()) =~= ranges.map_values(f));
        let g = |r: (int, int)| decode_utf8(bytes.subrange(r.0, r.1));
        assert forall|k: int| 0 <= k < slices@.len() implies #[trigger] slices@[k]@ == g(ranges[k]) by {
            vstd::utf8::encode_utf8_decode_utf8(slices@[k]@);
        }
        assert(slices@.map_values(|s: &str| s@) =~= ranges.map_values(g));
        vstd::utf8::encode_utf8_decode_utf8(text@);
        assert(slices@.map_values(|s: &str| s@) =~= split_pieces(separator@, text@));
        assert forall|k: int| 0 <= k < slices@.len() implies (#[trigger] slices@[k])@.len() > 0 by {
            if slices@[k]@.len() == 0 {
                assert(encode_utf8(slices@[k]@) =~= Seq::<u8>::empty());
            }
        }
        assert(indices@.last() == bytes.len());
        assert(bytes.subrange(0, bytes.len() as int) =~= bytes);
    }
    slices
}

/// Splits streamed text into log lines: text is buffered until the separator
/// shows where a line ends, and each completed line becomes a token.
pub struct LogLineTokenizer<'a> {
    separator: Pattern,
    buffer: String,
    pub count: usize,
    lines: Vec<LogLineToken<'a>>,
    log_source: &'a str,
    host_name: &'a str,
}

/// The texts of a sequence of tokens.
pub open spec fn token_texts<'a>(tokens: Seq<LogLineToken<'a>>) -> Seq<Seq<char>> {
    tokens.map_values(|t: LogLineToken<'a>| t.spec_raw_data())
}

/// What one `push` of `text` does to a tokenizer: the count goes up by one,
/// the separator, source and host stay, the buffer and the text are split at
/// the separator, every piece but the last becomes a new line (none of them
/// empty, each labelled like the others), the last piece is the new buffer,
/// and no text is lost.
pub open spec fn pushed<'a>(before: LogLineTokenizer<'a>, after: LogLineTokenizer<'a>, text: Seq<char>) -> bool {
    &&& after.spec_count() == before.spec_count() + 1
    &&& after.spec_separator() == before.spec_separator()
    &&& after.spec_log_source() == before.spec_log_source()
    &&& after.spec_host_name() == before.spec_host_name()
    &&& after.tokens_labelled()
    &&& ({
        let pieces = split_pieces(before.spec_separator(), before.spec_buffer() + text);
        if pieces.len() == 0 {
            &&& after.spec_lines() == before.spec_lines()
            &&& after.spec_buffer() == before.spec_buffer() + text
        } else {
            &&& token_texts(after.spec_lines()) == token_texts(before.spec_lines()) + pieces.drop_last()
            &&& after.spec_lines().take(before.spec_lines().len() as int) == before.spec_lines()
            &&& after.spec_buffer() == pieces.last()
        }
    })
    &&& after.spec_lines().len() >= before.spec_lines().len()
    &&& forall|i: int| before.spec_lines().len() <= i < after.spec_lines().len()
        ==> (#[trigger] after.spec_lines()[i]).spec_raw_data().len() > 0
    &&& concat_chars(token_texts(after.spec_lines())) + after.spec_buffer()
        == concat_chars(token_texts(before.spec_lines())) + before.spec_buffer() + text
}

/// A tokenizer as `new` makes it: nothing pushed, no lines, an empty buffer.
pub open spec fn fresh<'a>(t: LogLineTokenizer<'a>) -> bool {
    &&& t.spec_count() == 0
    &&& t.spec_lines().len() == 0
    &&& t.spec_buffer() == Seq::<char>::empty()
}

/// Whether no completed line is empty.
pub open spec fn tokens_nonempty<'a>(t: LogLineTokenizer<'a>) -> bool {
    forall|i: int| 0 <= i < t.spec_lines().len() ==> (#[trigger] t.spec_lines()[i]).spec_raw_data().len() > 0
}

/// A run of pushes into a new tokenizer: `states[0]` is the new tokenizer and
/// each next state is what pushing the next text leaves. At the end the count
/// is the number of pushes, the lines and the buffer together hold exactly
/// the texts pushed, in order, no line is empty, and every line is labelled
/// with the tokenizer's source and host.
pub proof fn law_pushes_lose_nothing<'a>(states: Seq<LogLineTokenizer<'a>>, texts: Seq<Seq<char>>)
    requires
        states.len() == texts.len() + 1,
        fresh(states[0]),
        forall|i: int| 0 <= i < texts.len() ==> pushed(states[i], #[trigger] states[i + 1], texts[i]),
    ensures
        states.last().spec_count() == texts.len(),
        concat_chars(token_texts(states.last().spec_lines())) + states.last().spec_buffer() == concat_chars(texts),
        tokens_nonempty(states.last()),
        states.last().tokens_labelled(),
        states.last().spec_log_source() == states[0].spec_log_source(),
        states.last().spec_host_name() == states[0].spec_host_name(),
    decreases texts.len(),
{
    if texts.len() == 0 {
        let t = states[0];
        assert(token_texts(t.spec_lines()) =~= Seq::<Seq<char>>::empty());
        assert(concat_chars(token_texts(t.spec_lines())) + t.spec_buffer() =~= Seq::<char>::empty());
    } else {
        let n = texts.len();
        let prev_states = states.drop_last();
        let prev_texts = texts.drop_last();
        assert forall|i: int| 0 <= i < prev_texts.len() implies pushed(prev_states[i], #[trigger] prev_states[i + 1], prev_texts[i]) by {
            assert(pushed(states[i], states[i + 1], texts[i]));
        }
        law_pushes_lose_nothing(prev_states, prev_texts);
        let before = states[n - 1];
        let after = states[n as int];
        assert(prev_states.last() == before);
        assert(pushed(before, after, texts[n - 1]));
        assert(after == states.last());
        assert(texts.last() == texts[n - 1]);
        assert forall|i: int| 0 <= i < after.spec_lines().len()
            implies (#[trigger] after.spec_lines()[i]).spec_raw_data().len() > 0 by {
            if i < before.spec_lines().len() {
                let pieces = split_pieces(before.spec_separator(), before.spec_buffer() + texts[n - 1]);
                if pieces.len() != 0 {
                    assert(after.spec_lines()[i] == after.spec_lines().take(before.spec_lines().len() as int)[i]);
                }
                assert(before.spec_lines()[i].spec_raw_data().len() > 0);
            }
        }
        assert(concat_chars(token_texts(states.last().spec_lines())) + states.last().spec_buffer()
            =~= concat_chars(prev_texts) + texts.last());
    }
}

impl<'a> LogLineTokenizer<'a> {
    /// Every completed line names this tokenizer's source and host.
    #[verifier::type_invariant]
    spec fn lines_labelled(self) -> bool {
        forall|i: int| 0 <= i < self.lines@.len() ==> {
            &&& (#[trigger] self.lines@[i]).spec_log_source() == self.log_source
            &&& self.lines@[i].spec_host_name() == self.host_name
        }
    }

    /// The separator pattern.
    pub closed spec fn spec_separator(&self) -> Seq<char> {
        self.separator@
    }

    /// The text received but not yet cut into a line.
    pub closed spec fn spec_buffer(&self) -> Seq<char> {
        self.buffer@
    }

    /// How many pieces of text were pushed.
    pub closed spec fn spec_count(&self) -> usize {
        self.count
    }

    /// The completed lines, oldest first.
    pub closed spec fn spec_lines(&self) -> Seq<LogLineToken<'a>> {
        self.lines@
    }

    /// The log source named in every token.
    pub closed spec fn spec_log_source(&self) -> &'a str {
        self.log_source
    }

    /// The host named in every token.
    pub closed spec fn spec_host_name(&self) -> &'a str {
        self.host_name
    }

    /// Whether every completed line names this tokenizer's source and host.
    pub open spec fn tokens_labelled(&self) -> bool {
        forall|i: int| 0 <= i < self.spec_lines().len() ==> {
            &&& (#[trigger] self.spec_lines()[i]).spec_log_source() == self.spec_log_source()
            &&& self.spec_lines()[i].spec_host_name() == self.spec_host_name()
        }
    }

    /// A tokenizer with an empty buffer and no lines.
    pub fn new(separator: Pattern, log_source: &'a str, host_name: &'a str) -> (r: LogLineTokenizer<'a>)
        ensures
            r.spec_separator() == separator@,
            r.spec_buffer() == Seq::<char>::empty(),
            r.spec_count() == 0,
            r.spec_lines() == Seq::<LogLineToken<'a>>::empty(),
            r.spec_log_source() == log_source,
            r.spec_host_name() == host_name,
    {
        let buffer = String::new();
        let lines: Vec<LogLineToken<'a>> = Vec::new();
        let count: usize = 0;
        LogLineTokenizer { separator, buffer, lines, count, log_source, host_name }
    }

    /// Appends `text` to the buffer and cuts every completed line out of it:
    /// the buffer is split at the separator, all pieces but the last become
    /// tokens, and the last piece stays in the buffer.
    pub fn push(&mut self, text: &str)
        requires
            old(self).spec_count() < usize::MAX,
        ensures
            pushed(*old(self), *final(self), text@),
    {
        proof {
            use_type_invariant(&*self);
        }
        self.count = self.count + 1;
        let mut buffer = String::new();
        std::mem::swap(&mut buffer, &mut self.buffer);
        buffer.append(text);
        self.buffer = buffer;
        let ghost mid_buffer = self.buffer@;
        proof {
            assert(self.spec_lines() == old(self).spec_lines());
        }
        self.tokenize();
        proof {
            assert(mid_buffer == old(self).buffer@ + text@);
            assert(concat_chars(token_texts(old(self).spec_lines())) + mid_buffer
                =~= concat_chars(token_texts(old(self).spec_lines())) + old(self).spec_buffer() + text@);
        }
    }

    /// Cuts every completed line out of the buffer.
    fn tokenize(&mut self)
        ensures
            final(self).spec_count() == old(self).spec_count(),
            final(self).spec_separator() == old(self).spec_separator(),
            final(self).spec_log_source() == old(self).spec_log_source(),
            final(self).spec_host_name() == old(self).spec_host_name(),
            final(self).tokens_labelled(),
            ({
                let pieces = split_pieces(old(self).spec_separator(), old(self).spec_buffer());
                if pieces.len() == 0 {
                    &&& final(self).spec_lines() == old(self).spec_lines()
                    &&& final(self).spec_buffer() == old(self).spec_buffer()
                } else {
                    &&& token_texts(final(self).spec_lines())
                        == token_texts(old(self).spec_lines()) + pieces.drop_last()
                    &&& final(self).spec_lines().take(old(self).spec_lines().len() as int)
                        == old(self).spec_lines()
                    &&& final(self).spec_buffer() == pieces.last()
                }
            }),
            concat_chars(token_texts(final(self).spec_lines())) + final(self).spec_buffer()
                == concat_chars(token_texts(old(self).spec_lines())) + old(self).spec_buffer(),
            forall|i: int| old(self).spec_lines().len() <= i < final(self).spec_lines().len()
                ==> (#[trigger] final(self).spec_lines()[i]).spec_raw_data().len() > 0,
    {
        proof {
            use_type_invariant(&*self);
        }
        let tokenized = split_text(&self.separator, self.buffer.as_str());
        let n = tokenized.len();
        if n > 0 {
            let ghost pieces = tokenized@.map_values(|s: &str| s@);
            let mut lines: Vec<LogLineToken<'a>> = Vec::new();
            std::mem::swap(&mut lines, &mut self.lines);
            let ghost old_lines = lines@;
            for k in 0..n - 1
                invariant
                    n == tokenized@.len(),
                    n > 0,
                    pieces == tokenized@.map_values(|s: &str| s@),
                    self.log_source == old(self).log_source,
                    self.host_name == old(self).host_name,
                    old_lines == old(self).lines@,
                    lines@.len() == old_lines.len() + k,
                    lines@.take(old_lines.len() as int) == old_lines,
                    token_texts(lines@) == token_texts(old_lines) + pieces.take(k as int),
                    forall|i: int| 0 <= i < lines@.len() ==> {
                        &&& (#[trigger] lines@[i]).spec_log_source() == self.log_source
                        &&& lines@[i].spec_host_name() == self.host_name
                    },
            {
                let line = self.make_token(tokenized[k]);
                let ghost before = lines@;
                lines.push(line);
                proof {
                    assert(lines@.take(old_lines.len() as int) =~= before.take(old_lines.len() as int));
                    assert(pieces[k as int] == tokenized@[k as int]@);
                    assert(token_texts(lines@) =~= token_texts(before).push(pieces[k as int]));
                    assert(pieces.take(k + 1) =~= pieces.take(k as int).push(pieces[k as int]));
                    assert(token_texts(lines@) =~= token_texts(old_lines) + pieces.take(k + 1));
                    assert forall|i: int| 0 <= i < lines@.len() implies {
                        &&& (#[trigger] lines@[i]).spec_log_source() == self.log_source
                        &&& lines@[i].spec_host_name() == self.host_name
                    } by {
                        if i < before.len() {
                            assert(lines@[i] == before[i]);
                        }
                    }
                }
            }
            let last = tokenized[n - 1].to_owned();
            self.buffer = last;
            self.lines = lines;
            proof {
                assert forall|i: int| old_lines.len() <= i < self.lines@.len()
                    implies (#[trigger] self.lines@[i]).spec_raw_data().len() > 0 by {
                    assert(token_texts(self.lines@)[i] == pieces[i - old_lines.len()]);
                    assert(pieces[i - old_lines.len()] == tokenized@[i - old_lines.len()]@);
                }
                assert(pieces.take(n - 1) =~= pieces.drop_last());
                lemma_concat_chars_push(token_texts(old_lines), pieces.drop_last());
                assert(pieces.drop_last().push(pieces.last()) =~= pieces);
                lemma_concat_chars_push(pieces.drop_last(), seq![pieces.last()]);
                assert(concat_chars(seq![pieces.last()]) =~= pieces.last()) by {
                    reveal_with_fuel(concat_chars, 2);
                    assert(seq![pieces.last()].drop_last() =~= Seq::<Seq<char>>::empty());
                }
            }
        } else {
            proof {
                assert(concat_chars(tokenized@.map_values(|s: &str| s@)) == Seq::<char>::empty());
            }
        }
        proof {
            use_type_invariant(&*self);
        }
    }

    /// A token for `text`, labelled with this tokenizer's source and host.
    fn make_token(&self, text: &str) -> (r: LogLineToken<'a>)
        ensures
            r.spec_raw_data() == text@,
            r.spec_log_source() == self.log_source,
            r.spec_host_name() == self.host_name,
    {
        LogLineToken::new(text, self.log_source, self.host_name)
    }

    /// Turns whatever is left in the buffer into a final line and empties the
    /// buffer (what the tokenizer does when it is dropped).
    pub fn flush(&mut self)
        ensures
            final(self).spec_count() == old(self).spec_count(),
            final(self).spec_separator() == old(self).spec_separator(),
            final(self).spec_log_source() == old(self).spec_log_source(),
            final(self).spec_host_name() == old(self).spec_host_name(),
            final(self).tokens_labelled(),
            token_texts(final(self).spec_lines()) == token_texts(old(self).spec_lines()).push(
                old(self).spec_buffer(),
            ),
            final(self).spec_lines().take(old(self).spec_lines().len() as int) == old(self).spec_lines(),
            final(self).spec_buffer() == Seq::<char>::empty(),
            concat_chars(token_texts(final(self).spec_lines()))
                == concat_chars(token_texts(old(self).spec_lines())) + old(self).spec_buffer(),
    {
        proof {
            use_type_invariant(&*self);
        }
        let line = self.make_token(self.buffer.as_str());
        self.buffer = String::new();
        let mut lines: Vec<LogLineToken<'a>> = Vec::new();
        std::mem::swap(&mut lines, &mut self.lines);
        let ghost before = lines@;
        lines.push(line);
        proof {
            assert forall|i: int| 0 <= i < lines@.len() implies {
                &&& (#[trigger] lines@[i]).spec_log_source() == self.log_source
                &&& lines@[i].spec_host_name() == self.host_name
            } by {
                if i < before.len() {
                    assert(lines@[i] == before[i]);
                }
            }
        }
        self.lines = lines;
        proof {
            assert(self.lines@.take(before.len() as int) =~= before);
            assert(token_texts(self.lines@) =~= token_texts(before).push(old(self).buffer@));
            assert(self.lines@[before.len() as int] == line);
            assert(token_texts(self.lines@).drop_last() =~= token_texts(before));
            use_type_invariant(&*self);
        }
    }

    /// The completed lines, oldest first.
    pub fn lines(&self) -> (r: &Vec<LogLineToken<'a>>)
        ensures
            r@ == self.spec_lines(),
    {
        &self.lines
    }

    /// The text received but not yet cut into a line.
    pub fn buffer(&self) -> (r: &str)
        ensures
            r@ == self.spec_buffer(),
    {
        self.buffer.as_str()
    }
}

proof fn lemma_concat_chars_push(a: Seq<Seq<char>>, b: Seq<Seq<char>>)
    ensures
        concat_chars(a + b) == concat_chars(a) + concat_chars(b),
    decreases b.len(),
{
    if b.len() == 0 {
        assert(a + b =~= a);
    } else {
        lemma_concat_chars_push(a, b.drop_last());
        assert((a + b).drop_last() =~= a + b.drop_last());
    }
}

} // verus!

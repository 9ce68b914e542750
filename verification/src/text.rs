//! Lines and tokens of a text given as bytes.
//!
//! A text is cut into lines at every line feed. A line is cut into tokens at
//! every run of white space.

use crate::ascii::{BLANK, CARRIAGE_RETURN, LINE_FEED, TAB};
use vstd::prelude::*;

verus! {

/// True for the white space of ASCII: the blank, and the controls from the
/// horizontal tab to the carriage return.
pub open spec fn is_space(b: u8) -> bool {
    b == BLANK || TAB <= b <= CARRIAGE_RETURN
}

/// True for the byte that ends a line.
pub open spec fn is_line_feed(b: u8) -> bool {
    b == LINE_FEED
}

/// Length of the longest prefix of `s` that holds no byte for which `stop`
/// is true.
pub open spec fn run_len(s: Seq<u8>, stop: spec_fn(u8) -> bool) -> nat
    decreases s.len(),
{
    if s.len() == 0 || stop(s[0]) {
        0
    } else {
        1 + run_len(s.skip(1), stop)
    }
}

/// A run ends inside the sequence, holds no stopping byte, and is followed by
/// one unless it reaches the end.
pub proof fn lemma_run_len(s: Seq<u8>, stop: spec_fn(u8) -> bool)
    ensures
        run_len(s, stop) <= s.len(),
        forall|i: int| 0 <= i < run_len(s, stop) ==> !stop(#[trigger] s[i]),
        run_len(s, stop) < s.len() ==> stop(s[run_len(s, stop) as int]),
    decreases s.len(),
{
    if s.len() != 0 && !stop(s[0]) {
        let rest = s.skip(1);
        lemma_run_len(rest, stop);
        assert forall|i: int| 0 <= i < run_len(s, stop) implies !stop(#[trigger] s[i]) by {
            if i > 0 {
                assert(s[i] == rest[i - 1]);
            }
        }
        if run_len(s, stop) < s.len() {
            assert(s[run_len(s, stop) as int] == rest[run_len(rest, stop) as int]);
        }
    }
}

/// The run is the only prefix that holds no stopping byte and ends at one or
/// at the end of the sequence.
pub proof fn lemma_run_len_is(s: Seq<u8>, stop: spec_fn(u8) -> bool, n: int)
    requires
        0 <= n <= s.len(),
        forall|i: int| 0 <= i < n ==> !stop(#[trigger] s[i]),
        n < s.len() ==> stop(s[n]),
    ensures
        run_len(s, stop) == n,
    decreases s.len(),
{
    if n > 0 {
        let rest = s.skip(1);
        assert(!stop(s[0]));
        assert forall|i: int| 0 <= i < n - 1 implies !stop(#[trigger] rest[i]) by {
            assert(rest[i] == s[i + 1]);
        }
        lemma_run_len_is(rest, stop, n - 1);
    }
}

/// The test for the byte that ends a line.
pub open spec fn at_line_feed() -> spec_fn(u8) -> bool {
    |b: u8| is_line_feed(b)
}

/// The test for the bytes that end a token.
pub open spec fn at_space() -> spec_fn(u8) -> bool {
    |b: u8| is_space(b)
}

/// Length of the first line of `s`, its line feed not counted.
pub open spec fn line_len(s: Seq<u8>) -> nat {
    run_len(s, at_line_feed())
}

/// Length of the token with which `s` begins: zero where `s` begins with
/// white space.
pub open spec fn word_len(s: Seq<u8>) -> nat {
    run_len(s, at_space())
}

/// The lines of a text: what stands between its line feeds. A text with `n`
/// line feeds has `n + 1` lines, of which any may be empty.
pub open spec fn split_lines(s: Seq<u8>) -> Seq<Seq<u8>>
    decreases s.len(),
    via split_lines_decreases
{
    let n = line_len(s);
    if n >= s.len() {
        seq![s]
    } else {
        seq![s.take(n as int)] + split_lines(s.skip(n as int + 1))
    }
}

#[via_fn]
proof fn split_lines_decreases(s: Seq<u8>) {
    lemma_run_len(s, at_line_feed());
}

/// The tokens of a line: its longest runs of bytes that are no white space,
/// in the order in which they stand.
pub open spec fn tokens(s: Seq<u8>) -> Seq<Seq<u8>>
    decreases s.len(),
    via tokens_decreases
{
    if s.len() == 0 {
        seq![]
    } else if is_space(s[0]) {
        tokens(s.skip(1))
    } else {
        let n = word_len(s);
        seq![s.take(n as int)] + tokens(s.skip(n as int))
    }
}

#[via_fn]
proof fn tokens_decreases(s: Seq<u8>) {
    lemma_run_len(s, at_space());
}

/// The line without the carriage return that a line ending of two bytes
/// leaves at its end.
pub open spec fn trim_line(line: Seq<u8>) -> Seq<u8> {
    if line.len() > 0 && line.last() == CARRIAGE_RETURN {
        line.drop_last()
    } else {
        line
    }
}

/// Line `i` of the lines of a text, as it was written before its line
/// ending: a line that a line feed ends loses the carriage return before
/// the line feed, if there is one; the last line has no line ending and is
/// kept whole.
pub open spec fn raw_line(lines: Seq<Seq<u8>>, i: int) -> Seq<u8> {
    if i + 1 < lines.len() {
        trim_line(lines[i])
    } else {
        lines[i]
    }
}

/// A text has at least one line.
pub proof fn lemma_split_lines_len(s: Seq<u8>)
    ensures
        split_lines(s).len() >= 1,
{
}

/// A stretch of a line or of a text, by the indices of its first byte and of
/// the byte after its last.
#[derive(Clone, Copy, Debug, PartialEq, Eq, Structural)]
pub struct Span {
    pub start: usize,
    pub end: usize,
}

impl Span {
    /// True when the stretch lies inside `s` and holds exactly `part`.
    pub open spec fn cuts(self, s: Seq<u8>, part: Seq<u8>) -> bool {
        &&& self.start <= self.end <= s.len()
        &&& s.subrange(self.start as int, self.end as int) == part
    }
}

/// Tells whether a byte is white space.
pub fn byte_is_space(b: u8) -> (yes: bool)
    ensures
        yes == is_space(b),
{
    b == BLANK || (TAB <= b && b <= CARRIAGE_RETURN)
}

/// Index at which the line that begins at `from` ends: that of its line
/// feed, or the length of the text. Past the end of the text no line
/// begins, and `from` comes back.
pub fn line_end(s: &[u8], from: usize) -> (end: usize)
    ensures
        from <= s@.len() ==> {
            &&& from <= end <= s@.len()
            &&& end - from == line_len(s@.skip(from as int))
            &&& end < s@.len() ==> s@[end as int] == LINE_FEED
        },
        from > s@.len() ==> end == from,
{
    let mut end: usize = from;
    while end < s.len() && s[end] != LINE_FEED
        invariant
            from <= end,
            from <= s@.len() ==> end <= s@.len(),
            from > s@.len() ==> end == from,
            forall|i: int| from <= i < end ==> !is_line_feed(#[trigger] s@[i]),
        decreases s@.len() - end,
    {
        end = end + 1;
    }
    proof {
        if from <= s@.len() {
            let rest = s@.skip(from as int);
            assert forall|i: int| 0 <= i < end - from implies !at_line_feed()(
                #[trigger] rest[i],
            ) by {
                assert(rest[i] == s@[from + i]);
            }
            lemma_run_len_is(rest, at_line_feed(), end - from);
        }
    }
    end
}

/// Index at which the token that begins at `from` ends: that of the first
/// white space at or after `from`, or the length of the line. Past the end
/// of the line no token begins, and `from` comes back.
pub fn word_end(s: &[u8], from: usize) -> (end: usize)
    ensures
        from <= s@.len() ==> {
            &&& from <= end <= s@.len()
            &&& end - from == word_len(s@.skip(from as int))
        },
        from > s@.len() ==> end == from,
{
    let mut end: usize = from;
    while end < s.len() && !byte_is_space(s[end])
        invariant
            from <= end,
            from <= s@.len() ==> end <= s@.len(),
            from > s@.len() ==> end == from,
            forall|i: int| from <= i < end ==> !is_space(#[trigger] s@[i]),
        decreases s@.len() - end,
    {
        end = end + 1;
    }
    proof {
        if from <= s@.len() {
            let rest = s@.skip(from as int);
            assert forall|i: int| 0 <= i < end - from implies !at_space()(#[trigger] rest[i]) by {
                assert(rest[i] == s@[from + i]);
            }
            lemma_run_len_is(rest, at_space(), end - from);
        }
    }
    end
}

/// Cuts a line into its tokens.
pub fn tokenize(line: &[u8]) -> (spans: Vec<Span>)
    ensures
        spans@.len() == tokens(line@).len(),
        forall|i: int|
            0 <= i < spans@.len() ==> (#[trigger] spans@[i]).cuts(line@, tokens(line@)[i]),
{
    let mut spans: Vec<Span> = Vec::new();
    let mut pos: usize = 0;
    let ghost done: Seq<Seq<u8>> = Seq::empty();
    assert(line@.skip(0) == line@);
    while pos < line.len()
        invariant
            pos <= line@.len(),
            tokens(line@) == done + tokens(line@.skip(pos as int)),
            spans@.len() == done.len(),
            forall|i: int| 0 <= i < spans@.len() ==> (#[trigger] spans@[i]).cuts(line@, done[i]),
        decreases line@.len() - pos,
    {
        let ghost rest = line@.skip(pos as int);
        assert(rest[0] == line@[pos as int]);
        if byte_is_space(line[pos]) {
            assert(rest.skip(1) == line@.skip(pos + 1));
            pos = pos + 1;
        } else {
            let end: usize = word_end(line, pos);
            proof {
                let n = word_len(rest) as int;
                assert(rest.take(n) == line@.subrange(pos as int, end as int));
                assert(rest.skip(n) == line@.skip(end as int));
                assert(done + (seq![rest.take(n)] + tokens(rest.skip(n))) == done.push(
                    rest.take(n),
                ) + tokens(rest.skip(n)));
                done = done.push(rest.take(n));
            }
            spans.push(Span { start: pos, end });
            pos = end;
        }
    }
    assert(line@.skip(pos as int).len() == 0);
    assert(done + Seq::<Seq<u8>>::empty() == done);
    spans
}

} // verus!

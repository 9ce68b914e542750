//! The canonical text of a mesh description.
//!
//! A description is written one record to a line: the keyword and the
//! arguments with one blank between them, and a line feed at the end. The
//! positions come first, then the texture coordinates, the normals and the
//! faces, each kind in the order in which the description holds it. Reading
//! the canonical text gives the description back.

use crate::ascii::{
    BLANK, DIGIT_ZERO, LINE_FEED, POINT, SLASH, SMALL_A, SMALL_F, SMALL_N, SMALL_T, SMALL_V,
};
use crate::mesh_text::{
    at_slash, decimal_value, face_of, first_malformed, gather, index_digits, index_of,
    is_first_malformed, keyword_of, parse_text, record_of, triple_of, Face, FaceIndexTriple,
    Keyword, MeshData, MeshDataView, ParseErrorView, RecordView,
};
use crate::scalar::{
    digits_in, exponent_digits_start, exponent_in, is_digit, is_real_literal, mantissa_in,
    special_in, spells_in, to_lower, unsigned_start, word_inf, word_infinity, word_nan,
};
use crate::text::{
    at_line_feed, at_space, is_line_feed, is_space, lemma_run_len_is, line_len, split_lines,
    tokens,
};
use crate::vertex::{Vec2, Vec2View, Vec3, Vec3View};
use vstd::prelude::*;

verus! {

/// True when `s` can stand as one token: it is not empty and holds no white
/// space.
pub open spec fn is_word(s: Seq<u8>) -> bool {
    &&& s.len() > 0
    &&& forall|i: int| 0 <= i < s.len() ==> !is_space(#[trigger] s[i])
}

/// The digits that write `n` in base ten, without leading zeros.
pub open spec fn decimal_digits(n: nat) -> Seq<u8>
    decreases n,
{
    if n < 10 {
        seq![(DIGIT_ZERO + n) as u8]
    } else {
        decimal_digits(n / 10).push((DIGIT_ZERO + n % 10) as u8)
    }
}

/// The digits of a number are digits, and denote the number.
pub proof fn lemma_decimal_digits(n: nat)
    ensures
        decimal_digits(n).len() >= 1,
        digits_in(decimal_digits(n), 0, decimal_digits(n).len() as int),
        decimal_value(decimal_digits(n)) == n,
    decreases n,
{
    let s = decimal_digits(n);
    if n < 10 {
        assert(s.drop_last() == Seq::<u8>::empty());
        assert(decimal_value(s.drop_last()) == 0);
        assert(s.last() == (DIGIT_ZERO + n) as u8);
    } else {
        lemma_decimal_digits(n / 10);
        let before = decimal_digits(n / 10);
        assert(s.drop_last() == before);
        assert(s.last() == (DIGIT_ZERO + n % 10) as u8);
        assert forall|i: int| 0 <= i < s.len() implies is_digit(#[trigger] s[i]) by {
            if i < before.len() {
                assert(s[i] == before[i]);
            }
        }
    }
}

/// A literal of the grammar of reals can stand as one token.
pub proof fn lemma_literal_is_word(s: Seq<u8>)
    requires
        is_real_literal(s),
    ensures
        is_word(s),
{
    let lo = unsigned_start(s);
    let hi = s.len() as int;
    if special_in(s, lo, hi) {
        assert forall|i: int| 0 <= i < s.len() implies !is_space(#[trigger] s[i]) by {
            if i >= lo {
                let j = i - lo;
                if spells_in(s, lo, hi, word_inf()) {
                    assert(to_lower(s[lo + j]) == word_inf()[j]);
                    assert(j == 0 || j == 1 || j == 2);
                    assert(word_inf()[j] >= SMALL_A);
                } else if spells_in(s, lo, hi, word_nan()) {
                    assert(to_lower(s[lo + j]) == word_nan()[j]);
                    assert(j == 0 || j == 1 || j == 2);
                    assert(word_nan()[j] >= SMALL_A);
                } else {
                    assert(to_lower(s[lo + j]) == word_infinity()[j]);
                    assert(j == 0 || j == 1 || j == 2 || j == 3 || j == 4 || j == 5 || j == 6
                        || j == 7);
                    assert(word_infinity()[j] >= SMALL_A);
                }
            }
        }
    } else {
        let cut = choose|cut: int|
            lo <= cut <= hi && #[trigger] mantissa_in(s, lo, cut) && (cut == hi || exponent_in(
                s,
                cut,
                hi,
            ));
        assert forall|i: int| 0 <= i < s.len() implies !is_space(#[trigger] s[i]) by {
            if i < lo {
            } else if i < cut {
                if lo < cut && digits_in(s, lo, cut) {
                    assert(is_digit(s[i]));
                } else {
                    let point = choose|point: int|
                        lo <= point < cut && #[trigger] s[point] == POINT && digits_in(s, lo, point)
                            && digits_in(s, point + 1, cut) && cut - lo >= 2;
                    if i != point {
                        assert(is_digit(s[i]));
                    }
                }
            } else {
                let d = exponent_digits_start(s, cut, hi);
                if i >= d {
                    assert(is_digit(s[i]));
                }
            }
        }
    }
}

/// True when `line` holds no line feed.
pub open spec fn on_one_line(line: Seq<u8>) -> bool {
    forall|i: int| 0 <= i < line.len() ==> !is_line_feed(#[trigger] line[i])
}

/// The words with one blank between each two of them.
pub open spec fn join_words(words: Seq<Seq<u8>>) -> Seq<u8>
    decreases words.len(),
{
    if words.len() == 0 {
        seq![]
    } else if words.len() == 1 {
        words[0]
    } else {
        words[0] + seq![BLANK] + join_words(words.skip(1))
    }
}

/// A word alone is its own single token.
proof fn lemma_tokens_of_word(word: Seq<u8>)
    requires
        is_word(word),
    ensures
        tokens(word) == seq![word],
{
    assert forall|i: int| 0 <= i < word.len() implies !at_space()(#[trigger] word[i]) by {}
    lemma_run_len_is(word, at_space(), word.len() as int);
    assert(word.take(word.len() as int) == word);
    assert(tokens(word.skip(word.len() as int)) == Seq::<Seq<u8>>::empty());
    assert(seq![word] + Seq::<Seq<u8>>::empty() == seq![word]);
}

/// A word, a blank and more text: the word is the first token, and the
/// others are those of the text that follows.
proof fn lemma_tokens_after_word(word: Seq<u8>, rest: Seq<u8>)
    requires
        is_word(word),
    ensures
        tokens(word + seq![BLANK] + rest) == seq![word] + tokens(rest),
{
    let s = word + seq![BLANK] + rest;
    let n = word.len() as int;
    assert forall|i: int| 0 <= i < n implies !at_space()(#[trigger] s[i]) by {
        assert(s[i] == word[i]);
    }
    assert(s[n] == BLANK);
    lemma_run_len_is(s, at_space(), n);
    assert(s[0] == word[0]);
    assert(s.take(n) == word);
    let tail = s.skip(n);
    assert(tail == seq![BLANK] + rest);
    assert(tail[0] == BLANK);
    assert(tail.skip(1) == rest);
    assert(tokens(tail) == tokens(rest));
    assert(tokens(s) == seq![s.take(n)] + tokens(s.skip(n)));
}

/// Words that are joined by blanks come back as the tokens of the line.
pub proof fn lemma_tokens_joined(words: Seq<Seq<u8>>)
    requires
        forall|i: int| 0 <= i < words.len() ==> is_word(#[trigger] words[i]),
    ensures
        tokens(join_words(words)) == words,
    decreases words.len(),
{
    if words.len() == 0 {
    } else if words.len() == 1 {
        lemma_tokens_of_word(words[0]);
    } else {
        let rest = words.skip(1);
        assert forall|i: int| 0 <= i < rest.len() implies is_word(#[trigger] rest[i]) by {
            assert(rest[i] == words[i + 1]);
        }
        lemma_tokens_joined(rest);
        lemma_tokens_after_word(words[0], join_words(rest));
        assert(seq![words[0]] + rest == words);
    }
}

/// Words that are joined by blanks hold no line feed.
pub proof fn lemma_joined_on_one_line(words: Seq<Seq<u8>>)
    requires
        forall|i: int| 0 <= i < words.len() ==> is_word(#[trigger] words[i]),
    ensures
        on_one_line(join_words(words)),
    decreases words.len(),
{
    let line = join_words(words);
    if words.len() == 0 {
    } else if words.len() == 1 {
        assert forall|i: int| 0 <= i < line.len() implies !is_line_feed(#[trigger] line[i]) by {
            assert(!is_space(words[0][i]));
        }
    } else {
        let rest = words.skip(1);
        assert forall|i: int| 0 <= i < rest.len() implies is_word(#[trigger] rest[i]) by {
            assert(rest[i] == words[i + 1]);
        }
        lemma_joined_on_one_line(rest);
        let tail = join_words(rest);
        let n = words[0].len() as int;
        assert forall|i: int| 0 <= i < line.len() implies !is_line_feed(#[trigger] line[i]) by {
            if i < n {
                assert(line[i] == words[0][i]);
                assert(!is_space(words[0][i]));
            } else if i == n {
                assert(line[i] == BLANK);
            } else {
                assert(line[i] == tail[i - n - 1]);
            }
        }
    }
}

/// The token that writes a corner: its three numbers with a slash between
/// each two of them.
pub open spec fn corner_text(corner: FaceIndexTriple) -> Seq<u8> {
    decimal_digits(corner.position as nat) + seq![SLASH] + decimal_digits(corner.uv as nat)
        + seq![SLASH] + decimal_digits(corner.normal as nat)
}

/// True when every number of the corner counts from 1.
pub open spec fn corner_well_formed(corner: FaceIndexTriple) -> bool {
    corner.position >= 1 && corner.uv >= 1 && corner.normal >= 1
}

/// The digits of a number from 1 on are read as that number.
proof fn lemma_index_of_digits(n: u64)
    requires
        n >= 1,
    ensures
        index_of(decimal_digits(n as nat)) == Some(n),
{
    let s = decimal_digits(n as nat);
    lemma_decimal_digits(n as nat);
    assert(is_digit(s[0]));
    assert(index_digits(s) == s);
}

/// The token that writes a corner is one token, and is read as the corner.
pub proof fn lemma_corner_text(corner: FaceIndexTriple)
    requires
        corner_well_formed(corner),
    ensures
        is_word(corner_text(corner)),
        triple_of(corner_text(corner)) == Some(corner),
{
    let p = decimal_digits(corner.position as nat);
    let u = decimal_digits(corner.uv as nat);
    let n = decimal_digits(corner.normal as nat);
    let t = corner_text(corner);
    lemma_decimal_digits(corner.position as nat);
    lemma_decimal_digits(corner.uv as nat);
    lemma_decimal_digits(corner.normal as nat);
    lemma_index_of_digits(corner.position);
    lemma_index_of_digits(corner.uv);
    lemma_index_of_digits(corner.normal);
    let a = p.len() as int;
    let b = u.len() as int;
    assert forall|i: int| 0 <= i < t.len() implies !is_space(#[trigger] t[i]) by {
        if i < a {
            assert(t[i] == p[i]);
            assert(is_digit(p[i]));
        } else if i == a {
            assert(t[i] == SLASH);
        } else if i < a + 1 + b {
            assert(t[i] == u[i - a - 1]);
            assert(is_digit(u[i - a - 1]));
        } else if i == a + 1 + b {
            assert(t[i] == SLASH);
        } else {
            assert(t[i] == n[i - a - b - 2]);
            assert(is_digit(n[i - a - b - 2]));
        }
    }
    assert forall|i: int| 0 <= i < a implies !at_slash()(#[trigger] t[i]) by {
        assert(t[i] == p[i]);
        assert(is_digit(p[i]));
    }
    assert(t[a] == SLASH);
    lemma_run_len_is(t, at_slash(), a);
    let rest = t.skip(a + 1);
    assert(rest == u + seq![SLASH] + n);
    assert forall|i: int| 0 <= i < b implies !at_slash()(#[trigger] rest[i]) by {
        assert(rest[i] == u[i]);
        assert(is_digit(u[i]));
    }
    assert(rest[b] == SLASH);
    lemma_run_len_is(rest, at_slash(), b);
    assert(t.take(a) == p);
    assert(rest.take(b) == u);
    assert(rest.skip(b + 1) == n);
}

impl Face {
    /// True when every number of every corner counts from 1.
    pub open spec fn well_formed(self) -> bool {
        &&& corner_well_formed(self.first)
        &&& corner_well_formed(self.second)
        &&& corner_well_formed(self.third)
    }
}

impl RecordView {
    /// True when the record holds what a line can declare: components that
    /// are literals of the grammar of reals, and numbers that count from 1.
    pub open spec fn well_formed(self) -> bool {
        match self {
            RecordView::Position(position) => position.well_formed(),
            RecordView::Uv(uv) => uv.well_formed(),
            RecordView::Normal(normal) => normal.well_formed(),
            RecordView::Face(face) => face.well_formed(),
            RecordView::Other => true,
        }
    }

    /// The keyword and the arguments that write the record. A record that
    /// declares nothing is written as an empty line.
    pub open spec fn words(self) -> Seq<Seq<u8>> {
        match self {
            RecordView::Position(position) => seq![
                Keyword::Position.token(),
                position.x,
                position.y,
                position.z,
            ],
            RecordView::Uv(uv) => seq![Keyword::Uv.token(), uv.x, uv.y],
            RecordView::Normal(normal) => seq![
                Keyword::Normal.token(),
                normal.x,
                normal.y,
                normal.z,
            ],
            RecordView::Face(face) => seq![
                Keyword::Face.token(),
                corner_text(face.first),
                corner_text(face.second),
                corner_text(face.third),
            ],
            RecordView::Other => seq![],
        }
    }

    /// The line that writes the record, without its line feed.
    pub open spec fn line(self) -> Seq<u8> {
        join_words(self.words())
    }
}

/// The four keywords are tokens, and each is read as itself.
proof fn lemma_keywords()
    ensures
        is_word(Keyword::Position.token()),
        is_word(Keyword::Uv.token()),
        is_word(Keyword::Normal.token()),
        is_word(Keyword::Face.token()),
        keyword_of(Keyword::Position.token()) == Keyword::Position,
        keyword_of(Keyword::Uv.token()) == Keyword::Uv,
        keyword_of(Keyword::Normal.token()) == Keyword::Normal,
        keyword_of(Keyword::Face.token()) == Keyword::Face,
{
    let v = Keyword::Position.token();
    let vt = Keyword::Uv.token();
    let vn = Keyword::Normal.token();
    let f = Keyword::Face.token();
    assert(v.len() == 1 && vt.len() == 2 && vn.len() == 2 && f.len() == 1);
    assert(v[0] == SMALL_V && f[0] == SMALL_F);
    assert(vt[1] == SMALL_T && vn[1] == SMALL_N);
    assert(vt != v);
    assert(vn != v);
    assert(vn != vt);
    assert(f != v);
    assert(f != vt);
    assert(f != vn);
}

/// Four words that are joined by blanks are the four tokens of the line.
proof fn lemma_line_of_four(a: Seq<u8>, b: Seq<u8>, c: Seq<u8>, d: Seq<u8>)
    requires
        is_word(a),
        is_word(b),
        is_word(c),
        is_word(d),
    ensures
        tokens(join_words(seq![a, b, c, d])) == seq![a, b, c, d],
        on_one_line(join_words(seq![a, b, c, d])),
{
    let words = seq![a, b, c, d];
    assert(words[0] == a && words[1] == b && words[2] == c && words[3] == d);
    lemma_tokens_joined(words);
    lemma_joined_on_one_line(words);
}

/// Three words that are joined by blanks are the three tokens of the line.
proof fn lemma_line_of_three(a: Seq<u8>, b: Seq<u8>, c: Seq<u8>)
    requires
        is_word(a),
        is_word(b),
        is_word(c),
    ensures
        tokens(join_words(seq![a, b, c])) == seq![a, b, c],
        on_one_line(join_words(seq![a, b, c])),
{
    let words = seq![a, b, c];
    assert(words[0] == a && words[1] == b && words[2] == c);
    lemma_tokens_joined(words);
    lemma_joined_on_one_line(words);
}

/// The line that writes a position is read as the position.
proof fn lemma_position_line(position: Vec3View)
    requires
        position.well_formed(),
    ensures
        record_of(RecordView::Position(position).line()) == Some(RecordView::Position(position)),
        on_one_line(RecordView::Position(position).line()),
{
    lemma_keywords();
    lemma_literal_is_word(position.x);
    lemma_literal_is_word(position.y);
    lemma_literal_is_word(position.z);
    lemma_line_of_four(Keyword::Position.token(), position.x, position.y, position.z);
    let t = tokens(RecordView::Position(position).line());
    assert(t.len() == 4 && t[0] == Keyword::Position.token() && t[1] == position.x && t[2]
        == position.y && t[3] == position.z);
}

/// The line that writes a texture coordinate is read as the texture
/// coordinate.
proof fn lemma_uv_line(uv: Vec2View)
    requires
        uv.well_formed(),
    ensures
        record_of(RecordView::Uv(uv).line()) == Some(RecordView::Uv(uv)),
        on_one_line(RecordView::Uv(uv).line()),
{
    lemma_keywords();
    lemma_literal_is_word(uv.x);
    lemma_literal_is_word(uv.y);
    lemma_line_of_three(Keyword::Uv.token(), uv.x, uv.y);
    let t = tokens(RecordView::Uv(uv).line());
    assert(t.len() == 3 && t[0] == Keyword::Uv.token() && t[1] == uv.x && t[2] == uv.y);
}

/// The line that writes a normal is read as the normal.
proof fn lemma_normal_line(normal: Vec3View)
    requires
        normal.well_formed(),
    ensures
        record_of(RecordView::Normal(normal).line()) == Some(RecordView::Normal(normal)),
        on_one_line(RecordView::Normal(normal).line()),
{
    lemma_keywords();
    lemma_literal_is_word(normal.x);
    lemma_literal_is_word(normal.y);
    lemma_literal_is_word(normal.z);
    lemma_line_of_four(Keyword::Normal.token(), normal.x, normal.y, normal.z);
    let t = tokens(RecordView::Normal(normal).line());
    assert(t.len() == 4 && t[0] == Keyword::Normal.token() && t[1] == normal.x && t[2]
        == normal.y && t[3] == normal.z);
}

/// The line that writes a face is read as the face.
proof fn lemma_face_line(face: Face)
    requires
        face.well_formed(),
    ensures
        record_of(RecordView::Face(face).line()) == Some(RecordView::Face(face)),
        on_one_line(RecordView::Face(face).line()),
{
    lemma_keywords();
    lemma_corner_text(face.first);
    lemma_corner_text(face.second);
    lemma_corner_text(face.third);
    lemma_line_of_four(
        Keyword::Face.token(),
        corner_text(face.first),
        corner_text(face.second),
        corner_text(face.third),
    );
    let t = tokens(RecordView::Face(face).line());
    assert(t.len() == 4 && t[0] == Keyword::Face.token() && t[1] == corner_text(face.first)
        && t[2] == corner_text(face.second) && t[3] == corner_text(face.third));
    assert(face_of(t[1], t[2], t[3]) == Some(face));
}

/// The line that writes a record holds no line feed, and is read as the
/// record.
pub proof fn lemma_record_line(record: RecordView)
    requires
        record.well_formed(),
    ensures
        record_of(record.line()) == Some(record),
        on_one_line(record.line()),
{
    match record {
        RecordView::Position(position) => {
            lemma_position_line(position);
        },
        RecordView::Uv(uv) => {
            lemma_uv_line(uv);
        },
        RecordView::Normal(normal) => {
            lemma_normal_line(normal);
        },
        RecordView::Face(face) => {
            lemma_face_line(face);
        },
        RecordView::Other => {
            let empty: Seq<u8> = seq![];
            assert(record.line() == empty);
            assert(tokens(empty).len() == 0);
        },
    }
}

/// The text that writes the records: one line each, every line ended by a
/// line feed.
pub open spec fn render(records: Seq<RecordView>) -> Seq<u8>
    decreases records.len(),
{
    if records.len() == 0 {
        seq![]
    } else {
        records[0].line() + seq![LINE_FEED] + render(records.skip(1))
    }
}

/// The lines that write the records, without their line feeds.
pub open spec fn lines_of(records: Seq<RecordView>) -> Seq<Seq<u8>> {
    Seq::new(records.len(), |i: int| records[i].line())
}

/// What the records declare, taken in their order.
pub open spec fn collect(records: Seq<RecordView>) -> MeshDataView
    decreases records.len(),
{
    if records.len() == 0 {
        MeshDataView::empty()
    } else {
        collect(records.drop_last()).with(records.last())
    }
}

/// The text that writes the records has their lines, and one empty line
/// after the last line feed.
proof fn lemma_split_rendered(records: Seq<RecordView>)
    requires
        forall|i: int| 0 <= i < records.len() ==> (#[trigger] records[i]).well_formed(),
    ensures
        split_lines(render(records)) == lines_of(records).push(seq![]),
    decreases records.len(),
{
    let text = render(records);
    if records.len() == 0 {
        assert(line_len(text) == 0);
        assert(lines_of(records).push(seq![]) == seq![text]);
    } else {
        let line = records[0].line();
        let rest = records.skip(1);
        let n = line.len() as int;
        lemma_record_line(records[0]);
        assert forall|i: int| 0 <= i < rest.len() implies (#[trigger] rest[i]).well_formed() by {
            assert(rest[i] == records[i + 1]);
        }
        lemma_split_rendered(rest);
        assert forall|i: int| 0 <= i < n implies !at_line_feed()(#[trigger] text[i]) by {
            assert(text[i] == line[i]);
        }
        assert(text[n] == LINE_FEED);
        lemma_run_len_is(text, at_line_feed(), n);
        assert(text.take(n) == line);
        assert(text.skip(n + 1) == render(rest));
        assert(split_lines(text) == seq![line] + split_lines(render(rest)));
        assert forall|i: int| 0 <= i < rest.len() implies lines_of(rest)[i] == lines_of(
            records,
        )[i + 1] by {
            assert(rest[i] == records[i + 1]);
        }
        assert(seq![line] + lines_of(rest).push(seq![]) == lines_of(records).push(seq![]));
    }
}

/// The lines that write the records declare what the records declare, and
/// none of them is malformed.
proof fn lemma_gather_lines(records: Seq<RecordView>)
    requires
        forall|i: int| 0 <= i < records.len() ==> (#[trigger] records[i]).well_formed(),
    ensures
        gather(lines_of(records)) == collect(records),
        forall|i: int|
            0 <= i < records.len() ==> record_of(#[trigger] lines_of(records)[i]) == Some(
                records[i],
            ),
    decreases records.len(),
{
    let lines = lines_of(records);
    assert forall|i: int| 0 <= i < records.len() implies record_of(#[trigger] lines[i]) == Some(
        records[i],
    ) by {
        lemma_record_line(records[i]);
    }
    if records.len() > 0 {
        let before = records.drop_last();
        assert forall|i: int| 0 <= i < before.len() implies (#[trigger] before[i]).well_formed() by {
            assert(before[i] == records[i]);
        }
        lemma_gather_lines(before);
        assert(lines.drop_last() == lines_of(before));
        assert(lines.last() == records.last().line());
        assert(record_of(lines[records.len() - 1]) == Some(records.last()));
    }
}

/// Reading the text that writes well-formed records gives what the records
/// declare.
pub proof fn lemma_read_rendered(records: Seq<RecordView>)
    requires
        forall|i: int| 0 <= i < records.len() ==> (#[trigger] records[i]).well_formed(),
    ensures
        parse_text(render(records)) == Ok::<MeshDataView, ParseErrorView>(collect(records)),
{
    let written = lines_of(records);
    let lines = split_lines(render(records));
    lemma_split_rendered(records);
    lemma_gather_lines(records);
    let empty: Seq<u8> = seq![];
    assert(lines == written.push(empty));
    assert(tokens(empty).len() == 0);
    assert(record_of(empty) == Some(RecordView::Other));
    assert(lines.drop_last() == written);
    assert(lines.last() == empty);
    assert(gather(lines) == gather(written).with(RecordView::Other));
    assert(first_malformed(lines) is None) by {
        if exists|i: int| is_first_malformed(lines, i) {
            let i = choose|i: int| is_first_malformed(lines, i);
            if i < written.len() {
                assert(lines[i] == written[i]);
                assert(record_of(written[i]) is Some);
            } else {
                assert(lines[i] == empty);
            }
        }
    }
}

/// The records that declare the given positions, in their order.
pub open spec fn position_records(positions: Seq<Vec3View>) -> Seq<RecordView> {
    Seq::new(positions.len(), |i: int| RecordView::Position(positions[i]))
}

/// The records that declare the given texture coordinates, in their order.
pub open spec fn uv_records(uvs: Seq<Vec2View>) -> Seq<RecordView> {
    Seq::new(uvs.len(), |i: int| RecordView::Uv(uvs[i]))
}

/// The records that declare the given normals, in their order.
pub open spec fn normal_records(normals: Seq<Vec3View>) -> Seq<RecordView> {
    Seq::new(normals.len(), |i: int| RecordView::Normal(normals[i]))
}

/// The records that declare the given faces, in their order.
pub open spec fn face_records(faces: Seq<Face>) -> Seq<RecordView> {
    Seq::new(faces.len(), |i: int| RecordView::Face(faces[i]))
}

impl MeshDataView {
    /// True when the description holds what a text can declare: components
    /// that are literals of the grammar of reals, and numbers that count
    /// from 1.
    pub open spec fn well_formed(self) -> bool {
        &&& forall|i: int|
            0 <= i < self.positions.len() ==> (#[trigger] self.positions[i]).well_formed()
        &&& forall|i: int| 0 <= i < self.uvs.len() ==> (#[trigger] self.uvs[i]).well_formed()
        &&& forall|i: int|
            0 <= i < self.normals.len() ==> (#[trigger] self.normals[i]).well_formed()
        &&& forall|i: int| 0 <= i < self.faces.len() ==> (#[trigger] self.faces[i]).well_formed()
    }

    /// The records of the description in canonical order: positions, texture
    /// coordinates, normals, faces.
    pub open spec fn records(self) -> Seq<RecordView> {
        position_records(self.positions) + uv_records(self.uvs) + normal_records(self.normals)
            + face_records(self.faces)
    }

    /// The canonical text of the description.
    pub open spec fn canonical_text(self) -> Seq<u8> {
        render(self.records())
    }
}

/// Records that declare positions, after other records, add the positions to
/// what those declare.
proof fn lemma_collect_positions(before: Seq<RecordView>, positions: Seq<Vec3View>)
    ensures
        collect(before + position_records(positions)) == (MeshDataView {
            positions: collect(before).positions + positions,
            ..collect(before)
        }),
    decreases positions.len(),
{
    let all = before + position_records(positions);
    if positions.len() == 0 {
        assert(all == before);
        assert(collect(before).positions + positions == collect(before).positions);
    } else {
        let init = positions.drop_last();
        lemma_collect_positions(before, init);
        assert(all.drop_last() == before + position_records(init));
        assert(all.last() == RecordView::Position(positions.last()));
        assert((collect(before).positions + init).push(positions.last()) == collect(
            before,
        ).positions + positions);
    }
}

/// Records that declare texture coordinates, after other records, add the
/// texture coordinates to what those declare.
proof fn lemma_collect_uvs(before: Seq<RecordView>, uvs: Seq<Vec2View>)
    ensures
        collect(before + uv_records(uvs)) == (MeshDataView {
            uvs: collect(before).uvs + uvs,
            ..collect(before)
        }),
    decreases uvs.len(),
{
    let all = before + uv_records(uvs);
    if uvs.len() == 0 {
        assert(all == before);
        assert(collect(before).uvs + uvs == collect(before).uvs);
    } else {
        let init = uvs.drop_last();
        lemma_collect_uvs(before, init);
        assert(all.drop_last() == before + uv_records(init));
        assert(all.last() == RecordView::Uv(uvs.last()));
        assert((collect(before).uvs + init).push(uvs.last()) == collect(before).uvs + uvs);
    }
}

/// Records that declare normals, after other records, add the normals to
/// what those declare.
proof fn lemma_collect_normals(before: Seq<RecordView>, normals: Seq<Vec3View>)
    ensures
        collect(before + normal_records(normals)) == (MeshDataView {
            normals: collect(before).normals + normals,
            ..collect(before)
        }),
    decreases normals.len(),
{
    let all = before + normal_records(normals);
    if normals.len() == 0 {
        assert(all == before);
        assert(collect(before).normals + normals == collect(before).normals);
    } else {
        let init = normals.drop_last();
        lemma_collect_normals(before, init);
        assert(all.drop_last() == before + normal_records(init));
        assert(all.last() == RecordView::Normal(normals.last()));
        assert((collect(before).normals + init).push(normals.last()) == collect(before).normals
            + normals);
    }
}

/// Records that declare faces, after other records, add the faces to what
/// those declare.
proof fn lemma_collect_faces(before: Seq<RecordView>, faces: Seq<Face>)
    ensures
        collect(before + face_records(faces)) == (MeshDataView {
            faces: collect(before).faces + faces,
            ..collect(before)
        }),
    decreases faces.len(),
{
    let all = before + face_records(faces);
    if faces.len() == 0 {
        assert(all == before);
        assert(collect(before).faces + faces == collect(before).faces);
    } else {
        let init = faces.drop_last();
        lemma_collect_faces(before, init);
        assert(all.drop_last() == before + face_records(init));
        assert(all.last() == RecordView::Face(faces.last()));
        assert((collect(before).faces + init).push(faces.last()) == collect(before).faces + faces);
    }
}

/// The records of a description declare the description.
pub proof fn lemma_collect_records(data: MeshDataView)
    ensures
        collect(data.records()) == data,
{
    let p = position_records(data.positions);
    let u = uv_records(data.uvs);
    let n = normal_records(data.normals);
    let f = face_records(data.faces);
    let none: Seq<RecordView> = Seq::empty();
    assert(none + p == p);
    lemma_collect_positions(none, data.positions);
    lemma_collect_uvs(p, data.uvs);
    lemma_collect_normals(p + u, data.normals);
    lemma_collect_faces(p + u + n, data.faces);
    assert(collect(data.records()) =~= data);
}

/// Reading the canonical text of a description gives the description back:
/// the same pools and the same faces, each in the same order.
pub proof fn lemma_round_trip(data: MeshDataView)
    requires
        data.well_formed(),
    ensures
        parse_text(data.canonical_text()) == Ok::<MeshDataView, ParseErrorView>(data),
{
    let records = data.records();
    let p = position_records(data.positions);
    let u = uv_records(data.uvs);
    let n = normal_records(data.normals);
    let f = face_records(data.faces);
    assert forall|i: int| 0 <= i < records.len() implies (#[trigger] records[i]).well_formed() by {
        if i < p.len() {
            assert(records[i] == p[i]);
            assert(data.positions[i].well_formed());
        } else if i < p.len() + u.len() {
            assert(records[i] == u[i - p.len()]);
            assert(data.uvs[i - p.len()].well_formed());
        } else if i < p.len() + u.len() + n.len() {
            assert(records[i] == n[i - p.len() - u.len()]);
            assert(data.normals[i - p.len() - u.len()].well_formed());
        } else {
            assert(records[i] == f[i - p.len() - u.len() - n.len()]);
            assert(data.faces[i - p.len() - u.len() - n.len()].well_formed());
        }
    }
    lemma_read_rendered(records);
    lemma_collect_records(data);
}

/// What a line declares is well formed.
proof fn lemma_record_well_formed(line: Seq<u8>)
    ensures
        record_of(line) matches Some(record) ==> record.well_formed(),
{
    let t = tokens(line);
    if t.len() == 4 && keyword_of(t[0]) == Keyword::Face {
        if face_of(t[1], t[2], t[3]) is Some {
            assert(triple_of(t[1]) is Some);
            assert(triple_of(t[2]) is Some);
            assert(triple_of(t[3]) is Some);
        }
    }
}

/// What lines declare is well formed.
proof fn lemma_gathered_well_formed(lines: Seq<Seq<u8>>)
    ensures
        gather(lines).well_formed(),
    decreases lines.len(),
{
    if lines.len() > 0 {
        lemma_gathered_well_formed(lines.drop_last());
        lemma_record_well_formed(lines.last());
    }
}

/// A description that was read from a text is well formed: reading its
/// canonical text gives it back.
pub proof fn lemma_parsed_well_formed(text: Seq<u8>)
    ensures
        parse_text(text) matches Ok(data) ==> data.well_formed(),
{
    lemma_gathered_well_formed(split_lines(text));
}

/// Writing what was read and reading it again gives the same description.
pub proof fn lemma_reread(text: Seq<u8>)
    ensures
        parse_text(text) matches Ok(data) ==> parse_text(data.canonical_text()) == Ok::<
            MeshDataView,
            ParseErrorView,
        >(data),
{
    lemma_parsed_well_formed(text);
    if let Ok(data) = parse_text(text) {
        lemma_round_trip(data);
    }
}

/// Four words that are joined by blanks, written out.
proof fn lemma_join_four(a: Seq<u8>, b: Seq<u8>, c: Seq<u8>, d: Seq<u8>)
    ensures
        join_words(seq![a, b, c, d]) == a + seq![BLANK] + b + seq![BLANK] + c + seq![BLANK] + d,
{
    let w4 = seq![a, b, c, d];
    let w3 = seq![b, c, d];
    let w2 = seq![c, d];
    let w1 = seq![d];
    assert(w4.skip(1) == w3);
    assert(w3.skip(1) == w2);
    assert(w2.skip(1) == w1);
    assert(join_words(w1) == d);
    assert(join_words(w2) == c + seq![BLANK] + d);
    assert(join_words(w3) == b + seq![BLANK] + join_words(w2));
    assert(join_words(w4) == a + seq![BLANK] + join_words(w3));
    assert(a + seq![BLANK] + (b + seq![BLANK] + (c + seq![BLANK] + d)) == a + seq![BLANK] + b
        + seq![BLANK] + c + seq![BLANK] + d);
}

/// Three words that are joined by blanks, written out.
proof fn lemma_join_three(a: Seq<u8>, b: Seq<u8>, c: Seq<u8>)
    ensures
        join_words(seq![a, b, c]) == a + seq![BLANK] + b + seq![BLANK] + c,
{
    let w3 = seq![a, b, c];
    let w2 = seq![b, c];
    let w1 = seq![c];
    assert(w3.skip(1) == w2);
    assert(w2.skip(1) == w1);
    assert(join_words(w1) == c);
    assert(join_words(w2) == b + seq![BLANK] + c);
    assert(join_words(w3) == a + seq![BLANK] + join_words(w2));
    assert(a + seq![BLANK] + (b + seq![BLANK] + c) == a + seq![BLANK] + b + seq![BLANK] + c);
}

/// One more record adds its line and a line feed to the text.
proof fn lemma_render_push(records: Seq<RecordView>, record: RecordView)
    ensures
        render(records.push(record)) == render(records) + record.line() + seq![LINE_FEED],
    decreases records.len(),
{
    let all = records.push(record);
    if records.len() == 0 {
        assert(all.skip(1) == Seq::<RecordView>::empty());
        assert(render(all.skip(1)) == Seq::<u8>::empty());
        assert(render(all) == record.line() + seq![LINE_FEED] + render(all.skip(1)));
    } else {
        let rest = records.skip(1);
        lemma_render_push(rest, record);
        assert(all.skip(1) == rest.push(record));
        assert(all[0] == records[0]);
        assert(render(all) == records[0].line() + seq![LINE_FEED] + render(rest.push(record)));
        assert(records[0].line() + seq![LINE_FEED] + (render(rest) + record.line() + seq![LINE_FEED])
            == (records[0].line() + seq![LINE_FEED] + render(rest)) + record.line() + seq![LINE_FEED]);
    }
}

/// Appends bytes to a text.
fn push_bytes(out: &mut Vec<u8>, bytes: &[u8])
    ensures
        final(out)@ == old(out)@ + bytes@,
{
    let mut i: usize = 0;
    while i < bytes.len()
        invariant
            i <= bytes@.len(),
            out@ == old(out)@ + bytes@.take(i as int),
        decreases bytes@.len() - i,
    {
        out.push(bytes[i]);
        assert(bytes@.take(i as int).push(bytes@[i as int]) == bytes@.take(i + 1));
        i = i + 1;
    }
    assert(bytes@.take(i as int) == bytes@);
}

/// Appends the digits of a number to a text.
fn push_decimal(out: &mut Vec<u8>, n: u64)
    ensures
        final(out)@ == old(out)@ + decimal_digits(n as nat),
    decreases n,
{
    if n >= 10 {
        push_decimal(out, n / 10);
    }
    let digit: u8 = DIGIT_ZERO + (n % 10) as u8;
    out.push(digit);
    proof {
        if n >= 10 {
            assert(old(out)@ + decimal_digits((n / 10) as nat).push(digit) == (old(out)@
                + decimal_digits((n / 10) as nat)).push(digit));
        } else {
            assert(old(out)@ + seq![digit] == old(out)@.push(digit));
        }
    }
}

/// Appends the token that writes a corner to a text.
fn push_corner(out: &mut Vec<u8>, corner: FaceIndexTriple)
    ensures
        final(out)@ == old(out)@ + corner_text(corner),
{
    push_decimal(out, corner.position);
    out.push(SLASH);
    push_decimal(out, corner.uv);
    out.push(SLASH);
    push_decimal(out, corner.normal);
    proof {
        let p = decimal_digits(corner.position as nat);
        let u = decimal_digits(corner.uv as nat);
        let n = decimal_digits(corner.normal as nat);
        assert(((((old(out)@ + p).push(SLASH)) + u).push(SLASH)) + n == old(out)@ + (p + seq![SLASH] + u + seq![SLASH] + n));
    }
}

/// Appends the line that writes a vector of three reals under the keyword
/// `keyword`, and its line feed, to a text.
fn push_vec3_line(out: &mut Vec<u8>, keyword: &[u8], vector: &Vec3)
    ensures
        final(out)@ == old(out)@ + join_words(seq![keyword@, vector@.x, vector@.y, vector@.z])
            + seq![LINE_FEED],
{
    push_bytes(out, keyword);
    out.push(BLANK);
    push_bytes(out, vector.x.as_bytes());
    out.push(BLANK);
    push_bytes(out, vector.y.as_bytes());
    out.push(BLANK);
    push_bytes(out, vector.z.as_bytes());
    out.push(LINE_FEED);
    proof {
        lemma_join_four(keyword@, vector@.x, vector@.y, vector@.z);
        let sp = seq![BLANK];
        assert(out@ == old(out)@ + (keyword@ + sp + vector@.x + sp + vector@.y + sp + vector@.z)
            + seq![LINE_FEED]);
    }
}

/// Appends the line that writes a texture coordinate, and its line feed, to
/// a text.
fn push_uv_line(out: &mut Vec<u8>, keyword: &[u8], uv: &Vec2)
    ensures
        final(out)@ == old(out)@ + join_words(seq![keyword@, uv@.x, uv@.y]) + seq![LINE_FEED],
{
    push_bytes(out, keyword);
    out.push(BLANK);
    push_bytes(out, uv.x.as_bytes());
    out.push(BLANK);
    push_bytes(out, uv.y.as_bytes());
    out.push(LINE_FEED);
    proof {
        lemma_join_three(keyword@, uv@.x, uv@.y);
        let sp = seq![BLANK];
        assert(out@ == old(out)@ + (keyword@ + sp + uv@.x + sp + uv@.y) + seq![LINE_FEED]);
    }
}

/// Appends the line that writes a face, and its line feed, to a text.
fn push_face_line(out: &mut Vec<u8>, keyword: &[u8], face: Face)
    ensures
        final(out)@ == old(out)@ + join_words(
            seq![
                keyword@,
                corner_text(face.first),
                corner_text(face.second),
                corner_text(face.third),
            ],
        ) + seq![LINE_FEED],
{
    push_bytes(out, keyword);
    out.push(BLANK);
    push_corner(out, face.first);
    out.push(BLANK);
    push_corner(out, face.second);
    out.push(BLANK);
    push_corner(out, face.third);
    out.push(LINE_FEED);
    proof {
        let a = corner_text(face.first);
        let b = corner_text(face.second);
        let c = corner_text(face.third);
        lemma_join_four(keyword@, a, b, c);
        let sp = seq![BLANK];
        assert(out@ == old(out)@ + (keyword@ + sp + a + sp + b + sp + c) + seq![LINE_FEED]);
    }
}

/// Writes the canonical text of a description.
pub fn write_text(data: &MeshData) -> (text: Vec<u8>)
    ensures
        text@ == data@.canonical_text(),
{
    let mut out: Vec<u8> = Vec::new();
    let v: Vec<u8> = vec![SMALL_V];
    let vt: Vec<u8> = vec![SMALL_V, SMALL_T];
    let vn: Vec<u8> = vec![SMALL_V, SMALL_N];
    let f: Vec<u8> = vec![SMALL_F];
    let ghost done: Seq<RecordView> = Seq::empty();
    let ghost view = data@;
    assert(render(done) == Seq::<u8>::empty());
    assert(done == position_records(view.positions.take(0)));
    let mut i: usize = 0;
    while i < data.positions.len()
        invariant
            view == data@,
            v@ == Keyword::Position.token(),
            i <= data.positions@.len(),
            done == position_records(view.positions.take(i as int)),
            out@ == render(done),
        decreases data.positions@.len() - i,
    {
        let ghost record = RecordView::Position(view.positions[i as int]);
        push_vec3_line(&mut out, v.as_slice(), &data.positions[i]);
        proof {
            lemma_render_push(done, record);
            assert(done.push(record) == position_records(view.positions.take(i + 1)));
            done = done.push(record);
        }
        i = i + 1;
    }
    assert(view.positions.take(i as int) == view.positions);
    let ghost p = position_records(view.positions);
    assert(done == p + uv_records(view.uvs.take(0)));
    i = 0;
    while i < data.uvs.len()
        invariant
            view == data@,
            vt@ == Keyword::Uv.token(),
            i <= data.uvs@.len(),
            p == position_records(view.positions),
            done == p + uv_records(view.uvs.take(i as int)),
            out@ == render(done),
        decreases data.uvs@.len() - i,
    {
        let ghost record = RecordView::Uv(view.uvs[i as int]);
        push_uv_line(&mut out, vt.as_slice(), &data.uvs[i]);
        proof {
            lemma_render_push(done, record);
            assert(done.push(record) == p + uv_records(view.uvs.take(i + 1)));
            done = done.push(record);
        }
        i = i + 1;
    }
    assert(view.uvs.take(i as int) == view.uvs);
    let ghost pu = p + uv_records(view.uvs);
    assert(done == pu + normal_records(view.normals.take(0)));
    i = 0;
    while i < data.normals.len()
        invariant
            view == data@,
            vn@ == Keyword::Normal.token(),
            i <= data.normals@.len(),
            pu == position_records(view.positions) + uv_records(view.uvs),
            done == pu + normal_records(view.normals.take(i as int)),
            out@ == render(done),
        decreases data.normals@.len() - i,
    {
        let ghost record = RecordView::Normal(view.normals[i as int]);
        push_vec3_line(&mut out, vn.as_slice(), &data.normals[i]);
        proof {
            lemma_render_push(done, record);
            assert(done.push(record) == pu + normal_records(view.normals.take(i + 1)));
            done = done.push(record);
        }
        i = i + 1;
    }
    assert(view.normals.take(i as int) == view.normals);
    let ghost pun = pu + normal_records(view.normals);
    assert(done == pun + face_records(view.faces.take(0)));
    i = 0;
    while i < data.faces.len()
        invariant
            view == data@,
            f@ == Keyword::Face.token(),
            i <= data.faces@.len(),
            pun == position_records(view.positions) + uv_records(view.uvs) + normal_records(
                view.normals,
            ),
            done == pun + face_records(view.faces.take(i as int)),
            out@ == render(done),
        decreases data.faces@.len() - i,
    {
        let ghost record = RecordView::Face(view.faces[i as int]);
        push_face_line(&mut out, f.as_slice(), data.faces[i]);
        proof {
            lemma_render_push(done, record);
            assert(done.push(record) == pun + face_records(view.faces.take(i + 1)));
            done = done.push(record);
        }
        i = i + 1;
    }
    assert(view.faces.take(i as int) == view.faces);
    out
}

} // verus!

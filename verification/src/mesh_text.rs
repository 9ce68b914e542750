//! Parser of the line-oriented mesh description.
//!
//! Every line is a record: a keyword and its arguments, separated by white
//! space.
//!
//! ```text
//! v  x y z            a position
//! vt u v              a texture coordinate
//! vn x y z            a normal
//! f  a/b/c a/b/c a/b/c   a triangle; each corner names a position, a
//!                        texture coordinate and a normal by its number,
//!                        counted from 1 in the order of declaration
//! ```
//!
//! A line with another keyword, and a line without any token, is passed over.
//! A line with one of the four keywords and anything but the arguments shown
//! is malformed, and the text as a whole is refused.

use crate::ascii::{
    CARRIAGE_RETURN, DIGIT_NINE, DIGIT_ZERO, PLUS, SLASH, SMALL_F, SMALL_N, SMALL_T, SMALL_V,
};
use crate::scalar::{digits_in, is_digit};
use crate::text::{
    lemma_run_len_is, lemma_split_lines_len, line_end, line_len, raw_line, run_len, split_lines,
    tokenize, tokens, trim_line, Span,
};
use crate::vertex::{Vec2, Vec2View, Vec3, Vec3View};
use vstd::prelude::*;

verus! {

/// The numbers by which one corner of a triangle names its position, its
/// texture coordinate and its normal. Each counts from 1.
#[derive(Clone, Copy, Debug, PartialEq, Eq, Structural)]
pub struct FaceIndexTriple {
    pub position: u64,
    pub uv: u64,
    pub normal: u64,
}

/// A triangle: its three corners in the order in which the line gives them.
#[derive(Clone, Copy, Debug, PartialEq, Eq, Structural)]
pub struct Face {
    pub first: FaceIndexTriple,
    pub second: FaceIndexTriple,
    pub third: FaceIndexTriple,
}

impl Face {
    /// Corner `k` of the triangle, for `k` in `0..3`.
    pub open spec fn corner(self, k: int) -> FaceIndexTriple {
        if k == 0 {
            self.first
        } else if k == 1 {
            self.second
        } else {
            self.third
        }
    }
}

/// The number that a digit stands for.
pub open spec fn digit_value(b: u8) -> nat {
    if is_digit(b) {
        (b - DIGIT_ZERO) as nat
    } else {
        0
    }
}

/// The number that a run of digits denotes in base ten.
pub open spec fn decimal_value(s: Seq<u8>) -> nat
    decreases s.len(),
{
    if s.len() == 0 {
        0
    } else {
        10 * decimal_value(s.drop_last()) + digit_value(s.last())
    }
}

/// The digits of an index literal: the literal without the `+` that may stand
/// in front.
pub open spec fn index_digits(s: Seq<u8>) -> Seq<u8> {
    if s.len() > 0 && s[0] == PLUS {
        s.skip(1)
    } else {
        s
    }
}

/// The index that `s` denotes: one or more digits, a `+` in front if any,
/// with a value from 1 to the largest 64-bit number. `None` for anything
/// else.
pub open spec fn index_of(s: Seq<u8>) -> Option<u64> {
    let digits = index_digits(s);
    let value = decimal_value(digits);
    if digits.len() > 0 && digits_in(digits, 0, digits.len() as int) && 1 <= value <= u64::MAX {
        Some(value as u64)
    } else {
        None
    }
}

/// The test for the byte that separates the indices of a corner.
pub open spec fn at_slash() -> spec_fn(u8) -> bool {
    |b: u8| b == SLASH
}

/// Length of the part of `s` before its first slash.
pub open spec fn field_len(s: Seq<u8>) -> nat {
    run_len(s, at_slash())
}

/// The corner that a token of the form `a/b/c` denotes. The token is cut at
/// its first two slashes, and each of the three parts must be an index.
pub open spec fn triple_of(token: Seq<u8>) -> Option<FaceIndexTriple> {
    let a = field_len(token) as int;
    let rest = token.skip(a + 1);
    let b = field_len(rest) as int;
    if a < token.len() && b < rest.len() {
        match (index_of(token.take(a)), index_of(rest.take(b)), index_of(rest.skip(b + 1))) {
            (Some(position), Some(uv), Some(normal)) => Some(
                FaceIndexTriple { position, uv, normal },
            ),
            _ => None,
        }
    } else {
        None
    }
}

/// A longer run of digits denotes no smaller number than any of its prefixes.
proof fn lemma_decimal_value_prefix(s: Seq<u8>, k: int)
    requires
        0 <= k <= s.len(),
    ensures
        decimal_value(s.take(k)) <= decimal_value(s),
    decreases s.len(),
{
    if k < s.len() {
        assert(s.drop_last().take(k) == s.take(k));
        lemma_decimal_value_prefix(s.drop_last(), k);
    } else {
        assert(s.take(k) == s);
    }
}

/// Reads an index: digits, a `+` in front if any, denoting a number from 1 to
/// the largest 64-bit number.
pub fn parse_index(s: &[u8]) -> (index: Option<u64>)
    ensures
        index == index_of(s@),
{
    let n: usize = s.len();
    let lo: usize = if n > 0 && s[0] == PLUS {
        1
    } else {
        0
    };
    let ghost digits = index_digits(s@);
    assert(digits == s@.skip(lo as int));
    if lo == n {
        return None;
    }
    let mut value: u64 = 0;
    let mut i: usize = lo;
    assert(digits.take(0) == Seq::<u8>::empty());
    while i < n
        invariant
            lo <= i <= n,
            n == s@.len(),
            digits == s@.skip(lo as int),
            digits == index_digits(s@),
            digits_in(digits, 0, i - lo),
            value == decimal_value(digits.take(i - lo)),
        decreases n - i,
    {
        let b: u8 = s[i];
        assert(digits[i - lo] == b);
        if !(DIGIT_ZERO <= b && b <= DIGIT_NINE) {
            assert(!is_digit(digits[i - lo]));
            return None;
        }
        let d: u64 = (b - DIGIT_ZERO) as u64;
        proof {
            let next = digits.take(i - lo + 1);
            assert(next.drop_last() == digits.take(i - lo));
            assert(next.last() == b);
            assert(decimal_value(next) == 10 * value + d);
            lemma_decimal_value_prefix(digits, i - lo + 1);
        }
        if value > (u64::MAX - d) / 10 {
            return None;
        }
        value = 10 * value + d;
        i = i + 1;
    }
    assert(digits.take(n - lo) == digits);
    if value == 0 {
        None
    } else {
        Some(value)
    }
}

/// Index of the first slash at or after `from`, or the length of the token.
fn field_end(s: &[u8], from: usize) -> (end: usize)
    requires
        from <= s@.len(),
    ensures
        from <= end <= s@.len(),
        end - from == field_len(s@.skip(from as int)),
{
    let mut end: usize = from;
    while end < s.len() && s[end] != SLASH
        invariant
            from <= end <= s@.len(),
            forall|i: int| from <= i < end ==> #[trigger] s@[i] != SLASH,
        decreases s@.len() - end,
    {
        end = end + 1;
    }
    proof {
        let rest = s@.skip(from as int);
        assert forall|i: int| 0 <= i < end - from implies !at_slash()(#[trigger] rest[i]) by {
            assert(rest[i] == s@[from + i]);
        }
        lemma_run_len_is(rest, at_slash(), end - from);
    }
    end
}

/// Reads a corner of the form `a/b/c`.
pub fn parse_triple(token: &[u8]) -> (triple: Option<FaceIndexTriple>)
    ensures
        triple == triple_of(token@),
{
    let n: usize = token.len();
    let a: usize = field_end(token, 0);
    assert(token@.skip(0) == token@);
    if a >= n {
        return None;
    }
    let b: usize = field_end(token, a + 1);
    if b >= n {
        return None;
    }
    proof {
        let rest = token@.skip(a + 1);
        assert(token@.subrange(0, a as int) == token@.take(a as int));
        assert(token@.subrange(a + 1, b as int) == rest.take(b - (a + 1)));
        assert(token@.subrange(b + 1, n as int) == rest.skip(b - (a + 1) + 1));
    }
    let position = parse_index(vstd::slice::slice_subrange(token, 0, a));
    let uv = parse_index(vstd::slice::slice_subrange(token, a + 1, b));
    let normal = parse_index(vstd::slice::slice_subrange(token, b + 1, n));
    match (position, uv, normal) {
        (Some(position), Some(uv), Some(normal)) => Some(FaceIndexTriple { position, uv, normal }),
        _ => None,
    }
}

/// What the first token of a line announces.
#[derive(Clone, Copy, Debug, PartialEq, Eq, Structural)]
pub enum Keyword {
    /// `v`: a position follows.
    Position,
    /// `vt`: a texture coordinate follows.
    Uv,
    /// `vn`: a normal follows.
    Normal,
    /// `f`: a triangle follows.
    Face,
    /// Anything else: the line is passed over.
    Other,
}

impl Keyword {
    /// The token that spells the keyword: `v`, `vt`, `vn` or `f`. No token
    /// spells [`Keyword::Other`].
    pub open spec fn token(self) -> Seq<u8> {
        match self {
            Keyword::Position => seq![SMALL_V],
            Keyword::Uv => seq![SMALL_V, SMALL_T],
            Keyword::Normal => seq![SMALL_V, SMALL_N],
            Keyword::Face => seq![SMALL_F],
            Keyword::Other => seq![],
        }
    }
}

/// The keyword that a token spells.
pub open spec fn keyword_of(token: Seq<u8>) -> Keyword {
    if token == Keyword::Position.token() {
        Keyword::Position
    } else if token == Keyword::Uv.token() {
        Keyword::Uv
    } else if token == Keyword::Normal.token() {
        Keyword::Normal
    } else if token == Keyword::Face.token() {
        Keyword::Face
    } else {
        Keyword::Other
    }
}

/// One line of a mesh description, read.
#[derive(Debug, PartialEq, Eq)]
pub enum Record {
    /// A position to add to the pool of positions.
    Position(Vec3),
    /// A texture coordinate to add to its pool.
    Uv(Vec2),
    /// A normal to add to the pool of normals.
    Normal(Vec3),
    /// A triangle to add to the list of faces.
    Face(Face),
    /// A line that declares nothing.
    Other,
}

/// What a [`Record`] holds.
pub enum RecordView {
    Position(Vec3View),
    Uv(Vec2View),
    Normal(Vec3View),
    Face(Face),
    Other,
}

impl View for Record {
    type V = RecordView;

    open spec fn view(&self) -> RecordView {
        match self {
            Record::Position(position) => RecordView::Position(position@),
            Record::Uv(uv) => RecordView::Uv(uv@),
            Record::Normal(normal) => RecordView::Normal(normal@),
            Record::Face(face) => RecordView::Face(*face),
            Record::Other => RecordView::Other,
        }
    }
}

/// The face that three corner tokens denote, if each of them is a corner.
pub open spec fn face_of(first: Seq<u8>, second: Seq<u8>, third: Seq<u8>) -> Option<Face> {
    match (triple_of(first), triple_of(second), triple_of(third)) {
        (Some(first), Some(second), Some(third)) => Some(Face { first, second, third }),
        _ => None,
    }
}

/// The record that a line holds, or `None` for a malformed line: one that
/// begins with one of the four keywords and does not go on with exactly the
/// arguments that the keyword asks for.
pub open spec fn record_of(line: Seq<u8>) -> Option<RecordView> {
    let t = tokens(line);
    if t.len() == 0 {
        Some(RecordView::Other)
    } else {
        match keyword_of(t[0]) {
            Keyword::Position => {
                if t.len() == 4 && (Vec3View { x: t[1], y: t[2], z: t[3] }).well_formed() {
                    Some(RecordView::Position(Vec3View { x: t[1], y: t[2], z: t[3] }))
                } else {
                    None
                }
            },
            Keyword::Uv => {
                if t.len() == 3 && (Vec2View { x: t[1], y: t[2] }).well_formed() {
                    Some(RecordView::Uv(Vec2View { x: t[1], y: t[2] }))
                } else {
                    None
                }
            },
            Keyword::Normal => {
                if t.len() == 4 && (Vec3View { x: t[1], y: t[2], z: t[3] }).well_formed() {
                    Some(RecordView::Normal(Vec3View { x: t[1], y: t[2], z: t[3] }))
                } else {
                    None
                }
            },
            Keyword::Face => {
                if t.len() == 4 {
                    match face_of(t[1], t[2], t[3]) {
                        Some(face) => Some(RecordView::Face(face)),
                        None => None,
                    }
                } else {
                    None
                }
            },
            Keyword::Other => Some(RecordView::Other),
        }
    }
}

/// Tells which keyword a token spells.
pub fn parse_keyword(token: &[u8]) -> (keyword: Keyword)
    ensures
        keyword == keyword_of(token@),
{
    let n: usize = token.len();
    if n == 1 && token[0] == SMALL_V {
        assert(token@ == Keyword::Position.token());
        Keyword::Position
    } else if n == 2 && token[0] == SMALL_V && token[1] == SMALL_T {
        assert(token@ == Keyword::Uv.token());
        Keyword::Uv
    } else if n == 2 && token[0] == SMALL_V && token[1] == SMALL_N {
        assert(token@ == Keyword::Normal.token());
        Keyword::Normal
    } else if n == 1 && token[0] == SMALL_F {
        assert(token@ == Keyword::Face.token());
        Keyword::Face
    } else {
        proof {
            if token@ == Keyword::Position.token() {
                assert(token@[0] == SMALL_V);
            }
            if token@ == Keyword::Uv.token() {
                assert(token@[0] == SMALL_V && token@[1] == SMALL_T);
            }
            if token@ == Keyword::Normal.token() {
                assert(token@[0] == SMALL_V && token@[1] == SMALL_N);
            }
            if token@ == Keyword::Face.token() {
                assert(token@[0] == SMALL_F);
            }
        }
        Keyword::Other
    }
}

/// The bytes of `line` that `span` marks.
fn cut<'a>(line: &'a [u8], span: Span) -> (part: &'a [u8])
    requires
        span.start <= span.end <= line@.len(),
    ensures
        part@ == line@.subrange(span.start as int, span.end as int),
{
    vstd::slice::slice_subrange(line, span.start, span.end)
}

/// Reads one line. Returns `None` exactly when the line is malformed.
pub fn parse_record(line: &[u8]) -> (record: Option<Record>)
    ensures
        match record {
            Some(found) => record_of(line@) == Some(found@),
            None => record_of(line@) is None,
        },
{
    let spans = tokenize(line);
    if spans.len() == 0 {
        return Some(Record::Other);
    }
    match parse_keyword(cut(line, spans[0])) {
        Keyword::Position => {
            if spans.len() != 4 {
                return None;
            }
            match Vec3::parse(cut(line, spans[1]), cut(line, spans[2]), cut(line, spans[3])) {
                Some(position) => Some(Record::Position(position)),
                None => None,
            }
        },
        Keyword::Uv => {
            if spans.len() != 3 {
                return None;
            }
            match Vec2::parse(cut(line, spans[1]), cut(line, spans[2])) {
                Some(uv) => Some(Record::Uv(uv)),
                None => None,
            }
        },
        Keyword::Normal => {
            if spans.len() != 4 {
                return None;
            }
            match Vec3::parse(cut(line, spans[1]), cut(line, spans[2]), cut(line, spans[3])) {
                Some(normal) => Some(Record::Normal(normal)),
                None => None,
            }
        },
        Keyword::Face => {
            if spans.len() != 4 {
                return None;
            }
            let first = parse_triple(cut(line, spans[1]));
            let second = parse_triple(cut(line, spans[2]));
            let third = parse_triple(cut(line, spans[3]));
            match (first, second, third) {
                (Some(first), Some(second), Some(third)) => Some(
                    Record::Face(Face { first, second, third }),
                ),
                _ => None,
            }
        },
        Keyword::Other => Some(Record::Other),
    }
}

/// Everything a mesh description declares: the three pools in the order of
/// declaration, and the faces that refer to them.
#[derive(Debug, PartialEq, Eq)]
pub struct MeshData {
    pub positions: Vec<Vec3>,
    pub uvs: Vec<Vec2>,
    pub normals: Vec<Vec3>,
    pub faces: Vec<Face>,
}

/// What a [`MeshData`] holds.
#[verifier::ext_equal]
pub struct MeshDataView {
    pub positions: Seq<Vec3View>,
    pub uvs: Seq<Vec2View>,
    pub normals: Seq<Vec3View>,
    pub faces: Seq<Face>,
}

impl View for MeshData {
    type V = MeshDataView;

    open spec fn view(&self) -> MeshDataView {
        MeshDataView {
            positions: self.positions.deep_view(),
            uvs: self.uvs.deep_view(),
            normals: self.normals.deep_view(),
            faces: self.faces@,
        }
    }
}

impl MeshDataView {
    /// The description that declares nothing.
    pub open spec fn empty() -> MeshDataView {
        MeshDataView {
            positions: Seq::empty(),
            uvs: Seq::empty(),
            normals: Seq::empty(),
            faces: Seq::empty(),
        }
    }

    /// The description with what `record` declares added at the end of the
    /// pool or list that it belongs to.
    pub open spec fn with(self, record: RecordView) -> MeshDataView {
        match record {
            RecordView::Position(position) => MeshDataView {
                positions: self.positions.push(position),
                ..self
            },
            RecordView::Uv(uv) => MeshDataView { uvs: self.uvs.push(uv), ..self },
            RecordView::Normal(normal) => MeshDataView {
                normals: self.normals.push(normal),
                ..self
            },
            RecordView::Face(face) => MeshDataView { faces: self.faces.push(face), ..self },
            RecordView::Other => self,
        }
    }
}

/// What the lines declare, taken in their order. A malformed line declares
/// nothing.
pub open spec fn gather(lines: Seq<Seq<u8>>) -> MeshDataView
    decreases lines.len(),
{
    if lines.len() == 0 {
        MeshDataView::empty()
    } else {
        let before = gather(lines.drop_last());
        match record_of(lines.last()) {
            Some(record) => before.with(record),
            None => before,
        }
    }
}

/// True when line `i` (counted from 0) is malformed and no line before it is.
pub open spec fn is_first_malformed(lines: Seq<Seq<u8>>, i: int) -> bool {
    &&& 0 <= i < lines.len()
    &&& record_of(lines[i]) is None
    &&& forall|j: int| 0 <= j < i ==> record_of(#[trigger] lines[j]) is Some
}

/// Index of the first malformed line, if there is one.
pub open spec fn first_malformed(lines: Seq<Seq<u8>>) -> Option<int> {
    if exists|i: int| is_first_malformed(lines, i) {
        Some(choose|i: int| is_first_malformed(lines, i))
    } else {
        None
    }
}

/// Why a mesh description was refused.
#[derive(Debug, PartialEq, Eq)]
pub enum ParseError {
    /// A line begins with a keyword and does not go on as the keyword asks.
    MalformedLine {
        /// Number of the line, counted from 1.
        line_number: usize,
        /// The line as it stands in the text, without its line ending: the
        /// line feed, and the carriage return before it if there is one.
        raw_text: Vec<u8>,
    },
}

/// What a [`ParseError`] holds.
pub enum ParseErrorView {
    MalformedLine { line_number: nat, raw_text: Seq<u8> },
}

impl View for ParseError {
    type V = ParseErrorView;

    open spec fn view(&self) -> ParseErrorView {
        match self {
            ParseError::MalformedLine { line_number, raw_text } => ParseErrorView::MalformedLine {
                line_number: *line_number as nat,
                raw_text: raw_text@,
            },
        }
    }
}

/// What reading a whole text gives: the description gathered from its lines,
/// or the first malformed line with its number.
pub open spec fn parse_text(text: Seq<u8>) -> Result<MeshDataView, ParseErrorView> {
    let lines = split_lines(text);
    match first_malformed(lines) {
        Some(i) => Err(
            ParseErrorView::MalformedLine {
                line_number: (i + 1) as nat,
                raw_text: raw_line(lines, i),
            },
        ),
        None => Ok(gather(lines)),
    }
}

/// A first malformed line is the only one.
pub proof fn lemma_first_malformed_is(lines: Seq<Seq<u8>>, i: int)
    requires
        is_first_malformed(lines, i),
    ensures
        first_malformed(lines) == Some(i),
{
    let k = choose|k: int| is_first_malformed(lines, k);
    if k < i {
        assert(record_of(lines[k]) is Some);
    }
    if i < k {
        assert(record_of(lines[i]) is Some);
    }
}

/// There is a first malformed line exactly when there is a malformed line:
/// a text is refused exactly when one of its lines is malformed.
pub proof fn lemma_first_malformed(lines: Seq<Seq<u8>>)
    ensures
        first_malformed(lines) is None <==> forall|j: int|
            0 <= j < lines.len() ==> record_of(#[trigger] lines[j]) is Some,
{
    if first_malformed(lines) is None {
        assert forall|j: int| 0 <= j < lines.len() implies record_of(#[trigger] lines[j])
            is Some by {
            lemma_malformed_has_first(lines, j);
        }
    } else {
        let i = choose|i: int| is_first_malformed(lines, i);
        assert(record_of(lines[i]) is None);
    }
}

/// Before or at a malformed line stands a first malformed line.
proof fn lemma_malformed_has_first(lines: Seq<Seq<u8>>, j: int)
    requires
        0 <= j < lines.len(),
    ensures
        record_of(lines[j]) is None ==> exists|i: int| is_first_malformed(lines, i),
    decreases j,
{
    if record_of(lines[j]) is None {
        if exists|k: int| 0 <= k < j && record_of(#[trigger] lines[k]) is None {
            let k = choose|k: int| 0 <= k < j && record_of(#[trigger] lines[k]) is None;
            lemma_malformed_has_first(lines, k);
        } else {
            assert(is_first_malformed(lines, j));
        }
    }
}

impl MeshData {
    /// The description that declares nothing.
    pub fn new() -> (data: MeshData)
        ensures
            data@ == MeshDataView::empty(),
    {
        let data = MeshData {
            positions: Vec::new(),
            uvs: Vec::new(),
            normals: Vec::new(),
            faces: Vec::new(),
        };
        assert(data.positions.deep_view() == Seq::<Vec3View>::empty());
        assert(data.uvs.deep_view() == Seq::<Vec2View>::empty());
        assert(data.normals.deep_view() == Seq::<Vec3View>::empty());
        data
    }

    /// Adds what `record` declares at the end of the pool or list that it
    /// belongs to.
    pub fn add(&mut self, record: Record)
        ensures
            final(self)@ == old(self)@.with(record@),
    {
        match record {
            Record::Position(position) => {
                self.positions.push(position);
                assert(self.positions.deep_view() == old(self).positions.deep_view().push(
                    position@,
                ));
            },
            Record::Uv(uv) => {
                self.uvs.push(uv);
                assert(self.uvs.deep_view() == old(self).uvs.deep_view().push(uv@));
            },
            Record::Normal(normal) => {
                self.normals.push(normal);
                assert(self.normals.deep_view() == old(self).normals.deep_view().push(normal@));
            },
            Record::Face(face) => {
                self.faces.push(face);
            },
            Record::Other => {},
        }
    }
}

/// The line as it goes into an error: without the carriage return that a
/// line ending of two bytes leaves behind.
fn trimmed(line: &[u8]) -> (raw: Vec<u8>)
    ensures
        raw@ == trim_line(line@),
{
    let n: usize = line.len();
    if n > 0 && line[n - 1] == CARRIAGE_RETURN {
        assert(line@.subrange(0, n - 1) == line@.drop_last());
        vstd::slice::slice_to_vec(vstd::slice::slice_subrange(line, 0, n - 1))
    } else {
        vstd::slice::slice_to_vec(line)
    }
}

/// Reads a mesh description.
///
/// The text is taken line by line. Positions, texture coordinates, normals
/// and faces are collected in the order in which the lines declare them;
/// lines with another keyword, and lines without a token, are passed over.
///
/// Fails at the first malformed line, with its number (counted from 1) and
/// its text, and returns nothing of what was read before it.
pub fn parse(text: &[u8]) -> (result: Result<MeshData, ParseError>)
    ensures
        match result {
            Ok(data) => parse_text(text@) == Ok::<MeshDataView, ParseErrorView>(data@),
            Err(error) => parse_text(text@) == Err::<MeshDataView, ParseErrorView>(error@),
        },
{
    let n: usize = text.len();
    let mut data = MeshData::new();
    let mut pos: usize = 0;
    let mut count: usize = 0;
    let ghost lines = split_lines(text@);
    let ghost done: Seq<Seq<u8>> = Seq::empty();
    assert(text@.skip(0) == text@);
    loop
        invariant
            n == text@.len(),
            pos <= n,
            count <= pos,
            count == done.len(),
            lines == split_lines(text@),
            lines == done + split_lines(text@.skip(pos as int)),
            forall|j: int| 0 <= j < done.len() ==> record_of(#[trigger] done[j]) is Some,
            data@ == gather(done),
        decreases n - pos,
    {
        let end: usize = line_end(text, pos);
        let line = vstd::slice::slice_subrange(text, pos, end);
        let ghost rest = text@.skip(pos as int);
        proof {
            assert(line@ == rest.take(line_len(rest) as int));
            if end >= n {
                assert(line@ == rest);
            }
            assert(split_lines(rest)[0] == line@);
            assert(lines[done.len() as int] == line@);
            assert(forall|j: int| 0 <= j < done.len() ==> lines[j] == done[j]);
        }
        match parse_record(line) {
            Some(record) => {
                data.add(record);
            },
            None => {
                proof {
                    assert(is_first_malformed(lines, count as int));
                    lemma_first_malformed_is(lines, count as int);
                    if end < n {
                        lemma_split_lines_len(rest.skip(line_len(rest) as int + 1));
                    }
                }
                let raw_text = if end < n {
                    trimmed(line)
                } else {
                    vstd::slice::slice_to_vec(line)
                };
                return Err(ParseError::MalformedLine { line_number: count + 1, raw_text });
            },
        }
        proof {
            let next = done.push(line@);
            assert(next.drop_last() == done);
            assert(next.last() == line@);
            assert(gather(next) == gather(done).with(record_of(line@).unwrap()));
        }
        if end >= n {
            proof {
                done = done.push(line@);
                assert(lines == done);
                assert(first_malformed(lines) is None) by {
                    if exists|i: int| is_first_malformed(lines, i) {
                        let i = choose|i: int| is_first_malformed(lines, i);
                        assert(record_of(lines[i]) is Some);
                    }
                }
            }
            return Ok(data);
        }
        proof {
            assert(rest.skip(line_len(rest) as int + 1) == text@.skip(end + 1));
            assert(done + (seq![line@] + split_lines(text@.skip(end + 1))) == done.push(line@)
                + split_lines(text@.skip(end + 1)));
            done = done.push(line@);
        }
        pos = end + 1;
        count = count + 1;
    }
}

} // verus!

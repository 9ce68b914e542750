//! Real numbers as a mesh description writes them.
//!
//! A coordinate is kept as the literal that stood in the text, once it has
//! been checked against the grammar of decimal reals:
//!
//! ```text
//! Real     ::= Sign? ( "inf" | "infinity" | "nan" | Number )
//! Number   ::= Mantissa Exponent?
//! Mantissa ::= Digit+ | Digit+ "." Digit* | Digit* "." Digit+
//! Exponent ::= "e" Sign? Digit+
//! Sign     ::= "+" | "-"
//! Digit    ::= "0" ... "9"
//! ```
//!
//! Letters match in either case. The grammar is the one by which the standard
//! library reads a binary floating-point number from text, so every accepted
//! literal can be converted by the caller.

use crate::ascii::{
    CAPITAL_A, CAPITAL_Z, CASE_OFFSET, DIGIT_NINE, DIGIT_ZERO, MINUS, PLUS, POINT, SMALL_A,
    SMALL_E, SMALL_F, SMALL_I, SMALL_N, SMALL_T, SMALL_Y,
};
use vstd::prelude::*;

verus! {

/// True for the ASCII digits.
pub open spec fn is_digit(b: u8) -> bool {
    DIGIT_ZERO <= b <= DIGIT_NINE
}

/// True for `+` and `-`.
pub open spec fn is_sign(b: u8) -> bool {
    b == PLUS || b == MINUS
}

/// The byte with an ASCII capital letter replaced by its small letter.
pub open spec fn to_lower(b: u8) -> u8 {
    if CAPITAL_A <= b <= CAPITAL_Z {
        (b + CASE_OFFSET) as u8
    } else {
        b
    }
}

/// True when every byte of `s` in `lo..hi` is a digit.
pub open spec fn digits_in(s: Seq<u8>, lo: int, hi: int) -> bool {
    forall|i: int| lo <= i < hi ==> is_digit(#[trigger] s[i])
}

/// True when `s` in `lo..hi` reads as `word`, letters in either case.
pub open spec fn spells_in(s: Seq<u8>, lo: int, hi: int, word: Seq<u8>) -> bool {
    &&& hi - lo == word.len()
    &&& forall|i: int| 0 <= i < word.len() ==> to_lower(#[trigger] s[lo + i]) == word[i]
}

/// The bytes of `inf`.
pub open spec fn word_inf() -> Seq<u8> {
    seq![SMALL_I, SMALL_N, SMALL_F]
}

/// The bytes of `infinity`.
pub open spec fn word_infinity() -> Seq<u8> {
    seq![SMALL_I, SMALL_N, SMALL_F, SMALL_I, SMALL_N, SMALL_I, SMALL_T, SMALL_Y]
}

/// The bytes of `nan`.
pub open spec fn word_nan() -> Seq<u8> {
    seq![SMALL_N, SMALL_A, SMALL_N]
}

/// True when `s` in `lo..hi` is one of the words for a value that is not a
/// finite number.
pub open spec fn special_in(s: Seq<u8>, lo: int, hi: int) -> bool {
    ||| spells_in(s, lo, hi, word_inf())
    ||| spells_in(s, lo, hi, word_infinity())
    ||| spells_in(s, lo, hi, word_nan())
}

/// True when `s` in `lo..hi` is a mantissa: digits, with at most one point
/// among them, and at least one digit.
pub open spec fn mantissa_in(s: Seq<u8>, lo: int, hi: int) -> bool {
    ||| lo < hi && digits_in(s, lo, hi)
    ||| exists|point: int|
        lo <= point < hi && #[trigger] s[point] == POINT && digits_in(s, lo, point) && digits_in(
            s,
            point + 1,
            hi,
        ) && hi - lo >= 2
}

/// Index of the first exponent digit when the exponent mark stands at `at`.
pub open spec fn exponent_digits_start(s: Seq<u8>, at: int, hi: int) -> int {
    if at + 1 < hi && is_sign(s[at + 1]) {
        at + 2
    } else {
        at + 1
    }
}

/// True when `s` in `lo..hi` is an exponent: the mark, an optional sign, and
/// at least one digit.
pub open spec fn exponent_in(s: Seq<u8>, lo: int, hi: int) -> bool {
    &&& lo < hi
    &&& to_lower(s[lo]) == SMALL_E
    &&& exponent_digits_start(s, lo, hi) < hi
    &&& digits_in(s, exponent_digits_start(s, lo, hi), hi)
}

/// True when `s` in `lo..hi` is a mantissa with or without an exponent.
pub open spec fn number_in(s: Seq<u8>, lo: int, hi: int) -> bool {
    exists|cut: int|
        lo <= cut <= hi && #[trigger] mantissa_in(s, lo, cut) && (cut == hi || exponent_in(
            s,
            cut,
            hi,
        ))
}

/// Index at which the part after an optional sign begins.
pub open spec fn unsigned_start(s: Seq<u8>) -> int {
    if s.len() > 0 && is_sign(s[0]) {
        1
    } else {
        0
    }
}

/// True when `s` is a literal of the grammar of reals.
pub open spec fn is_real_literal(s: Seq<u8>) -> bool {
    let lo = unsigned_start(s);
    special_in(s, lo, s.len() as int) || number_in(s, lo, s.len() as int)
}

/// Once the digits and the point have been scanned from `lo`, the mantissa of
/// a number can only be what was scanned: `lo..b`.
proof fn lemma_number_cut(s: Seq<u8>, lo: int, hi: int, a: int, has_point: bool, b: int)
    requires
        0 <= lo <= a <= hi <= s.len(),
        digits_in(s, lo, a),
        a < hi ==> !is_digit(s[a]),
        has_point == (a < hi && s[a] == POINT),
        has_point ==> a + 1 <= b <= hi && digits_in(s, a + 1, b) && (b < hi ==> !is_digit(s[b])),
        !has_point ==> b == a,
    ensures
        number_in(s, lo, hi) <==> mantissa_in(s, lo, b) && (b == hi || exponent_in(s, b, hi)),
        mantissa_in(s, lo, b) <==> (if has_point {
            b - lo >= 2
        } else {
            b - lo >= 1
        }),
{
    if has_point {
        if b - lo >= 2 {
            assert(s[a] == POINT);
            assert(mantissa_in(s, lo, b));
        }
        if mantissa_in(s, lo, b) {
            if lo < b && digits_in(s, lo, b) {
                assert(is_digit(s[a]));
            }
        }
    } else {
        if mantissa_in(s, lo, b) {
            if !(lo < b && digits_in(s, lo, b)) {
                let point = choose|point: int|
                    lo <= point < b && #[trigger] s[point] == POINT && digits_in(s, lo, point)
                        && digits_in(s, point + 1, b) && b - lo >= 2;
                assert(is_digit(s[point]));
            }
        }
    }
    if number_in(s, lo, hi) {
        let cut = choose|cut: int|
            lo <= cut <= hi && #[trigger] mantissa_in(s, lo, cut) && (cut == hi || exponent_in(
                s,
                cut,
                hi,
            ));
        if lo < cut && digits_in(s, lo, cut) {
            if a < cut {
                assert(is_digit(s[a]));
            }
            if cut < a {
                assert(is_digit(s[cut]));
            }
            assert(cut == a);
            assert(cut == b);
        } else {
            let point = choose|point: int|
                lo <= point < cut && #[trigger] s[point] == POINT && digits_in(s, lo, point)
                    && digits_in(s, point + 1, cut) && cut - lo >= 2;
            if a < point {
                assert(is_digit(s[a]));
            }
            if point < a {
                assert(is_digit(s[point]));
            }
            assert(point == a);
            if b < cut {
                assert(is_digit(s[b]));
            }
            if cut < b {
                assert(is_digit(s[cut]));
            }
            assert(cut == b);
        }
    }
}

/// Tells whether a byte is an ASCII digit.
fn byte_is_digit(b: u8) -> (yes: bool)
    ensures
        yes == is_digit(b),
{
    DIGIT_ZERO <= b && b <= DIGIT_NINE
}

/// Tells whether a byte is `+` or `-`.
fn byte_is_sign(b: u8) -> (yes: bool)
    ensures
        yes == is_sign(b),
{
    b == PLUS || b == MINUS
}

/// Replaces an ASCII capital letter by its small letter.
fn byte_to_lower(b: u8) -> (low: u8)
    ensures
        low == to_lower(b),
{
    if CAPITAL_A <= b && b <= CAPITAL_Z {
        b + CASE_OFFSET
    } else {
        b
    }
}

/// Index of the first byte at or after `from` that is no digit.
fn scan_digits(s: &[u8], from: usize) -> (end: usize)
    requires
        from <= s@.len(),
    ensures
        from <= end <= s@.len(),
        digits_in(s@, from as int, end as int),
        end < s@.len() ==> !is_digit(s@[end as int]),
{
    let mut end: usize = from;
    while end < s.len() && byte_is_digit(s[end])
        invariant
            from <= end <= s@.len(),
            digits_in(s@, from as int, end as int),
        decreases s@.len() - end,
    {
        end = end + 1;
    }
    end
}

/// Tells whether the bytes from `lo` on are one of the words `inf`,
/// `infinity` and `nan`.
fn scan_special(s: &[u8], lo: usize) -> (yes: bool)
    requires
        lo <= s@.len(),
    ensures
        yes == special_in(s@, lo as int, s@.len() as int),
{
    let n: usize = s.len() - lo;
    if n == 3 {
        let c0: u8 = byte_to_lower(s[lo]);
        let c1: u8 = byte_to_lower(s[lo + 1]);
        let c2: u8 = byte_to_lower(s[lo + 2]);
        let inf: bool = c0 == SMALL_I && c1 == SMALL_N && c2 == SMALL_F;
        let nan: bool = c0 == SMALL_N && c1 == SMALL_A && c2 == SMALL_N;
        proof {
            let hi = s@.len() as int;
            let l = lo as int;
            assert(spells_in(s@, l, hi, word_inf()) ==> inf) by {
                if spells_in(s@, l, hi, word_inf()) {
                    assert(to_lower(s@[l + 0]) == word_inf()[0]);
                    assert(to_lower(s@[l + 1]) == word_inf()[1]);
                    assert(to_lower(s@[l + 2]) == word_inf()[2]);
                }
            }
            assert(spells_in(s@, l, hi, word_nan()) ==> nan) by {
                if spells_in(s@, l, hi, word_nan()) {
                    assert(to_lower(s@[l + 0]) == word_nan()[0]);
                    assert(to_lower(s@[l + 1]) == word_nan()[1]);
                    assert(to_lower(s@[l + 2]) == word_nan()[2]);
                }
            }
            assert(!spells_in(s@, l, hi, word_infinity()));
        }
        inf || nan
    } else if n == 8 {
        let c0: u8 = byte_to_lower(s[lo]);
        let c1: u8 = byte_to_lower(s[lo + 1]);
        let c2: u8 = byte_to_lower(s[lo + 2]);
        let c3: u8 = byte_to_lower(s[lo + 3]);
        let c4: u8 = byte_to_lower(s[lo + 4]);
        let c5: u8 = byte_to_lower(s[lo + 5]);
        let c6: u8 = byte_to_lower(s[lo + 6]);
        let c7: u8 = byte_to_lower(s[lo + 7]);
        let infinity: bool = c0 == SMALL_I && c1 == SMALL_N && c2 == SMALL_F && c3 == SMALL_I
            && c4 == SMALL_N && c5 == SMALL_I && c6 == SMALL_T && c7 == SMALL_Y;
        proof {
            let hi = s@.len() as int;
            let l = lo as int;
            assert(spells_in(s@, l, hi, word_infinity()) ==> infinity) by {
                if spells_in(s@, l, hi, word_infinity()) {
                    assert(to_lower(s@[l + 0]) == word_infinity()[0]);
                    assert(to_lower(s@[l + 1]) == word_infinity()[1]);
                    assert(to_lower(s@[l + 2]) == word_infinity()[2]);
                    assert(to_lower(s@[l + 3]) == word_infinity()[3]);
                    assert(to_lower(s@[l + 4]) == word_infinity()[4]);
                    assert(to_lower(s@[l + 5]) == word_infinity()[5]);
                    assert(to_lower(s@[l + 6]) == word_infinity()[6]);
                    assert(to_lower(s@[l + 7]) == word_infinity()[7]);
                }
            }
            assert(!spells_in(s@, l, hi, word_inf()));
            assert(!spells_in(s@, l, hi, word_nan()));
        }
        infinity
    } else {
        false
    }
}

/// Tells whether `s` is a literal of the grammar of reals.
pub fn is_real(s: &[u8]) -> (yes: bool)
    ensures
        yes == is_real_literal(s@),
{
    let n: usize = s.len();
    let lo: usize = if n > 0 && byte_is_sign(s[0]) {
        1
    } else {
        0
    };
    if scan_special(s, lo) {
        return true;
    }
    let a: usize = scan_digits(s, lo);
    let has_point: bool = a < n && s[a] == POINT;
    let b: usize = if has_point {
        scan_digits(s, a + 1)
    } else {
        a
    };
    proof {
        lemma_number_cut(s@, lo as int, n as int, a as int, has_point, b as int);
    }
    let enough: bool = if has_point {
        b - lo >= 2
    } else {
        b - lo >= 1
    };
    if !enough {
        return false;
    }
    if b == n {
        return true;
    }
    if byte_to_lower(s[b]) != SMALL_E {
        return false;
    }
    let d: usize = if b + 1 < n && byte_is_sign(s[b + 1]) {
        b + 2
    } else {
        b + 1
    };
    let end: usize = scan_digits(s, d);
    proof {
        if end < n {
            assert(!digits_in(s@, d as int, n as int));
        }
    }
    end == n && d < n
}

/// A real number, kept as the literal that denotes it. Every value holds a
/// literal of the grammar of reals.
#[derive(Debug, PartialEq, Eq)]
pub struct Scalar {
    text: Vec<u8>,
}

impl View for Scalar {
    type V = Seq<u8>;

    /// The bytes of the literal.
    closed spec fn view(&self) -> Seq<u8> {
        self.text@
    }
}

impl DeepView for Scalar {
    type V = Seq<u8>;

    /// The bytes of the literal.
    open spec fn deep_view(&self) -> Seq<u8> {
        self@
    }
}

impl Scalar {
    #[verifier::type_invariant]
    spec fn holds_literal(&self) -> bool {
        is_real_literal(self.text@)
    }

    /// Takes `token` as a real number. Returns `None` exactly when `token` is
    /// no literal of the grammar of reals.
    pub fn parse(token: &[u8]) -> (scalar: Option<Scalar>)
        ensures
            match scalar {
                Some(value) => is_real_literal(token@) && value@ == token@,
                None => !is_real_literal(token@),
            },
    {
        if is_real(token) {
            Some(Scalar { text: vstd::slice::slice_to_vec(token) })
        } else {
            None
        }
    }

    /// The literal, ready to be converted to a machine number.
    pub fn as_bytes(&self) -> (bytes: &[u8])
        ensures
            bytes@ == self@,
            is_real_literal(bytes@),
    {
        proof {
            use_type_invariant(self);
        }
        self.text.as_slice()
    }
}

impl Clone for Scalar {
    fn clone(&self) -> (copy: Self)
        ensures
            copy@ == self@,
    {
        proof {
            use_type_invariant(self);
        }
        Scalar { text: vstd::slice::slice_to_vec(self.text.as_slice()) }
    }
}

} // verus!

//! The numeric-literal grammar of the dataset loader and the argument
//! parser.
//!
//! A field is kept only when it reads as a base-10 floating-point literal:
//! an optional sign, then `inf`, `infinity` or `nan` (any ASCII case), or a
//! mantissa of digits with at most one `.` and at least one digit, followed
//! by an optional exponent `e`/`E`, optional sign and digits. This is the
//! grammar that Rust's standard float parser documents, so a string this
//! module accepts always converts.

use vstd::prelude::*;
use vstd::string::*;
use crate::text::seq_eq_ci;
use crate::text::str_eq_ci;

verus! {

pub open spec fn is_digit(c: char) -> bool {
    48 <= (c as u32) && (c as u32) <= 57
}

/// `s` without a leading `+` or `-`.
pub open spec fn strip_sign(s: Seq<char>) -> Seq<char> {
    if s.len() > 0 && (s[0] == '+' || s[0] == '-') {
        s.drop_first()
    } else {
        s
    }
}

/// One or more digits.
pub open spec fn is_digits(s: Seq<char>) -> bool {
    s.len() > 0 && (forall|i: int| 0 <= i < s.len() ==> is_digit(s[i]))
}

/// Digits with at most one `.`, holding at least one digit.
pub open spec fn is_mantissa(s: Seq<char>) -> bool {
    &&& (forall|i: int| 0 <= i < s.len() ==> is_digit(s[i]) || s[i] == '.')
    &&& (exists|i: int| 0 <= i < s.len() && is_digit(s[i]))
    &&& (forall|i: int, j: int| 0 <= i < j < s.len() && s[i] == '.' ==> s[j] != '.')
}

/// `e` or `E`, an optional sign, then digits.
pub open spec fn is_exponent(s: Seq<char>) -> bool {
    s.len() >= 1 && (s[0] == 'e' || s[0] == 'E') && is_digits(strip_sign(s.drop_first()))
}

/// A mantissa with an optional exponent.
pub open spec fn is_number(s: Seq<char>) -> bool {
    ||| is_mantissa(s)
    ||| exists|i: int| 0 < i < s.len() && is_mantissa(s.take(i)) && is_exponent(s.skip(i))
}

/// The whole grammar: optional sign, then a special word or a number.
pub open spec fn is_float_literal(s: Seq<char>) -> bool {
    let b = strip_sign(s);
    ||| seq_eq_ci(b, "inf"@)
    ||| seq_eq_ci(b, "infinity"@)
    ||| seq_eq_ci(b, "nan"@)
    ||| is_number(b)
}

fn is_digit_char(c: char) -> (r: bool)
    ensures
        r == is_digit(c),
{
    let u = c as u32;
    48 <= u && u <= 57
}

fn is_digits_str(s: &str) -> (r: bool)
    ensures
        r == is_digits(s@),
{
    let len = s.unicode_len();
    if len == 0 {
        return false;
    }
    let mut i: usize = 0;
    while i < len
        invariant
            len == s@.len(),
            i <= len,
            forall|j: int| 0 <= j < i ==> is_digit(s@[j]),
        decreases len - i,
    {
        if !is_digit_char(s.get_char(i)) {
            return false;
        }
        i = i + 1;
    }
    true
}

fn is_mantissa_str(s: &str) -> (r: bool)
    ensures
        r == is_mantissa(s@),
{
    let len = s.unicode_len();
    let mut seen_digit = false;
    let ghost mut digit_at: int = 0;
    let mut dot: Option<usize> = None;
    let mut i: usize = 0;
    while i < len
        invariant
            len == s@.len(),
            i <= len,
            forall|j: int| 0 <= j < i ==> is_digit(s@[j]) || s@[j] == '.',
            seen_digit ==> 0 <= digit_at < i && is_digit(s@[digit_at]),
            !seen_digit ==> (forall|j: int| 0 <= j < i ==> !is_digit(s@[j])),
            match dot {
                Some(d) => 0 <= d < i && s@[d as int] == '.' && (forall|j: int|
                    0 <= j < i && j != d ==> s@[j] != '.'),
                None => forall|j: int| 0 <= j < i ==> s@[j] != '.',
            },
        decreases len - i,
    {
        let c = s.get_char(i);
        if is_digit_char(c) {
            seen_digit = true;
            proof {
                digit_at = i as int;
            }
        } else if c == '.' {
            match dot {
                Some(d) => {
                    assert(s@[d as int] == '.' && s@[i as int] == '.' && d < i);
                    return false;
                },
                None => {
                    dot = Some(i);
                },
            }
        } else {
            assert(!(is_digit(s@[i as int]) || s@[i as int] == '.'));
            return false;
        }
        i = i + 1;
    }
    seen_digit
}

fn is_exponent_str(s: &str) -> (r: bool)
    ensures
        r == is_exponent(s@),
{
    let len = s.unicode_len();
    if len == 0 {
        return false;
    }
    let c0 = s.get_char(0);
    if !(c0 == 'e' || c0 == 'E') {
        return false;
    }
    let from: usize = if len >= 2 {
        let c1 = s.get_char(1);
        if c1 == '+' || c1 == '-' {
            2
        } else {
            1
        }
    } else {
        1
    };
    let digits = s.substring_char(from, len);
    proof {
        assert(s@.drop_first() =~= s@.subrange(1, len as int));
        assert(strip_sign(s@.drop_first()) =~= s@.subrange(from as int, len as int));
    }
    is_digits_str(digits)
}

fn is_number_str(s: &str) -> (r: bool)
    ensures
        r == is_number(s@),
{
    let len = s.unicode_len();
    let mut i: usize = 0;
    while i < len && !(s.get_char(i) == 'e' || s.get_char(i) == 'E')
        invariant
            len == s@.len(),
            i <= len,
            forall|j: int| 0 <= j < i ==> !(s@[j] == 'e' || s@[j] == 'E'),
        decreases len - i,
    {
        i = i + 1;
    }
    if i == len {
        // no exponent marker anywhere: only the plain-mantissa form can hold
        let r = is_mantissa_str(s);
        proof {
            if !r {
                assert forall|k: int|
                    !(0 < k < s@.len() && is_mantissa(s@.take(k)) && is_exponent(
                        s@.skip(k),
                    )) by {
                    if 0 < k < s@.len() && is_exponent(s@.skip(k)) {
                        assert(s@[k] == s@.skip(k)[0]);
                    }
                }
            }
        }
        r
    } else {
        let head = s.substring_char(0, i);
        let tail = s.substring_char(i, len);
        proof {
            assert(s@.take(i as int) =~= s@.subrange(0, i as int));
            assert(s@.skip(i as int) =~= s@.subrange(i as int, len as int));
        }
        let mok = is_mantissa_str(head);
        let eok = is_exponent_str(tail);
        proof {
            // the marker at `i` rules out the plain-mantissa form, and makes
            // `i` the only possible cut between mantissa and exponent
            assert(!(is_digit(s@[i as int]) || s@[i as int] == '.'));
            assert forall|k: int|
                0 < k < s@.len() && is_mantissa(s@.take(k)) && is_exponent(s@.skip(k)) implies k
                == i by {
                assert(s@[k] == s@.skip(k)[0]);
                if k < i {
                    assert(!(s@[k] == 'e' || s@[k] == 'E'));
                } else if k > i {
                    assert(s@.take(k)[i as int] == s@[i as int]);
                    assert(is_digit(s@[i as int]) || s@[i as int] == '.');
                }
            }
        }
        mok && eok
    }
}

/// Whether `s` reads as a floating-point literal.
pub fn is_float_literal_str(s: &str) -> (r: bool)
    ensures
        r == is_float_literal(s@),
{
    let len = s.unicode_len();
    let body: &str = if len > 0 {
        let c0 = s.get_char(0);
        if c0 == '+' || c0 == '-' {
            s.substring_char(1, len)
        } else {
            s
        }
    } else {
        s
    };
    proof {
        assert(body@ =~= strip_sign(s@));
    }
    if str_eq_ci(body, "inf") || str_eq_ci(body, "infinity") || str_eq_ci(body, "nan") {
        true
    } else {
        is_number_str(body)
    }
}

/// A string that the grammar accepts; its numeric value is read by the
/// caller.
pub struct NumberLit {
    pub text: String,
}

impl DeepView for NumberLit {
    type V = Seq<char>;

    open spec fn deep_view(&self) -> Seq<char> {
        self.text@
    }
}

impl NumberLit {
    /// The literal is well formed: the grammar accepts its text.
    pub open spec fn wf(&self) -> bool {
        is_float_literal(self.text@)
    }

    /// Accepts `text` as a numeric literal, or reports that the grammar
    /// refuses it.
    pub fn new(text: String) -> (r: Result<NumberLit, String>)
        ensures
            match r {
                Ok(n) => is_float_literal(text@) && n.text@ == text@ && n.wf(),
                Err(t) => !is_float_literal(text@) && t@ == text@,
            },
    {
        if is_float_literal_str(text.as_str()) {
            Ok(NumberLit { text })
        } else {
            Err(text)
        }
    }

    pub fn as_str(&self) -> (r: &str)
        ensures
            r@ == self.text@,
    {
        self.text.as_str()
    }
}

} // verus!

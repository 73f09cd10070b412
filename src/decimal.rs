//! Exact decimal amounts, `mantissa / 10^scale`, and the plain decimal
//! literal they are read from.
use vstd::prelude::*;
use crate::arith::pow10_spec;
use crate::text::chars_of;

verus! {

/// Largest magnitude of a mantissa that a well-formed [`Decimal`] holds.
pub const MAX_MANTISSA: i128 = 100_000_000_000_000_000_000;

/// Largest number of fractional digits that a well-formed [`Decimal`] holds.
pub const MAX_SCALE: u32 = 24;

/// An exact decimal number: `mantissa / 10^scale`.
#[derive(Clone, Copy, Debug, PartialEq, Eq, Structural)]
pub struct Decimal {
    pub mantissa: i128,
    pub scale: u32,
}

pub open spec fn is_digit(c: char) -> bool {
    '0' <= c && c <= '9'
}

pub open spec fn digit_value(c: char) -> int {
    c as int - '0' as int
}

/// Value of the digits of `s`, read as one decimal integer; other
/// characters are passed over.
pub open spec fn digits_value(s: Seq<char>) -> int
    decreases s.len(),
{
    if s.len() == 0 {
        0
    } else if is_digit(s.last()) {
        digits_value(s.drop_last()) * 10 + digit_value(s.last())
    } else {
        digits_value(s.drop_last())
    }
}

/// Number of digits in `s`.
pub open spec fn digit_count(s: Seq<char>) -> nat
    decreases s.len(),
{
    if s.len() == 0 {
        0
    } else if is_digit(s.last()) {
        digit_count(s.drop_last()) + 1
    } else {
        digit_count(s.drop_last())
    }
}

/// Number of `.` in `s`.
pub open spec fn dot_count(s: Seq<char>) -> nat
    decreases s.len(),
{
    if s.len() == 0 {
        0
    } else if s.last() == '.' {
        dot_count(s.drop_last()) + 1
    } else {
        dot_count(s.drop_last())
    }
}

/// Number of digits that stand after a `.` in `s`.
pub open spec fn fraction_digits(s: Seq<char>) -> nat
    decreases s.len(),
{
    if s.len() == 0 {
        0
    } else if is_digit(s.last()) && dot_count(s.drop_last()) > 0 {
        fraction_digits(s.drop_last()) + 1
    } else {
        fraction_digits(s.drop_last())
    }
}

/// The part of a literal after its optional sign.
pub open spec fn literal_body(s: Seq<char>) -> Seq<char> {
    if s.len() > 0 && (s[0] == '-' || s[0] == '+') {
        s.subrange(1, s.len() as int)
    } else {
        s
    }
}

/// A plain decimal literal: an optional sign, then digits with at most one
/// `.` among them, and at least one digit (`12`, `-1.5`, `.5`, `3.`).
pub open spec fn is_literal(s: Seq<char>) -> bool {
    let b = literal_body(s);
    &&& forall|i: int| 0 <= i < b.len() ==> is_digit(#[trigger] b[i]) || b[i] == '.'
    &&& dot_count(b) <= 1
    &&& digit_count(b) >= 1
}

/// Whether the digit at `j` of a literal body is kept after the digits and
/// points before it: the mantissa must stay below [`MAX_MANTISSA`], and a
/// fractional digit must stay within [`MAX_SCALE`] places.
pub open spec fn keeps_digit(b: Seq<char>, j: int) -> bool {
    let pre = b.subrange(0, j);
    &&& is_digit(b[j])
    &&& digits_value(pre) * 10 + digit_value(b[j]) < MAX_MANTISSA
    &&& (dot_count(pre) == 0 || fraction_digits(pre) < MAX_SCALE)
}

/// Length of the part of `b` kept when reading it from position `j` on: the
/// reading stops at the first digit that is not kept.
pub open spec fn kept_len(b: Seq<char>, j: int) -> int
    decreases b.len() - j,
{
    if j < 0 || j >= b.len() {
        b.len() as int
    } else if b[j] == '.' || keeps_digit(b, j) {
        kept_len(b, j + 1)
    } else {
        j
    }
}

/// Whether the reading of `b` stopped at an integer digit: the integer part
/// is too large for a well-formed [`Decimal`].
pub open spec fn body_too_large(b: Seq<char>) -> bool {
    let k = kept_len(b, 0);
    k < b.len() && is_digit(b[k]) && dot_count(b.subrange(0, k)) == 0
}

/// Whether the first digit dropped from `b` rounds the kept digits up.
pub open spec fn body_rounds_up(b: Seq<char>) -> bool {
    let k = kept_len(b, 0);
    k < b.len() && is_digit(b[k]) && digit_value(b[k]) >= 5
}

/// The number a literal denotes, as a mantissa and a scale; fractional digits
/// beyond what a well-formed [`Decimal`] keeps are rounded half away from
/// zero.
pub open spec fn literal_decimal(s: Seq<char>) -> Decimal
    recommends
        is_literal(s),
{
    let b = literal_body(s);
    let kept = b.subrange(0, kept_len(b, 0));
    let m = digits_value(kept) + (if body_rounds_up(b) { 1int } else { 0 });
    Decimal {
        mantissa: (if s.len() > 0 && s[0] == '-' { -m } else { m }) as i128,
        scale: fraction_digits(kept) as u32,
    }
}

/// Whether the integer part of the literal fits a well-formed [`Decimal`].
pub open spec fn literal_fits(s: Seq<char>) -> bool {
    !body_too_large(literal_body(s))
}

proof fn lemma_digits_value_nonneg(s: Seq<char>)
    ensures
        digits_value(s) >= 0,
    decreases s.len(),
{
    if s.len() > 0 {
        lemma_digits_value_nonneg(s.drop_last());
    }
}

proof fn lemma_prefix_step(s: Seq<char>, i: int)
    requires
        0 <= i < s.len(),
    ensures
        s.subrange(0, i + 1).drop_last() == s.subrange(0, i),
        s.subrange(0, i + 1).last() == s[i],
{
    assert(s.subrange(0, i + 1).drop_last() =~= s.subrange(0, i));
}

impl Decimal {
    /// Mantissa and scale within the bounds that the value type computes with.
    pub open spec fn wf(&self) -> bool {
        -MAX_MANTISSA <= self.mantissa <= MAX_MANTISSA && self.scale <= MAX_SCALE
    }

    /// The decimal `mantissa / 10^scale`.
    pub fn new(mantissa: i128, scale: u32) -> (r: Decimal)
        ensures
            r.mantissa == mantissa,
            r.scale == scale,
    {
        Decimal { mantissa, scale }
    }

    /// Reads a plain decimal literal (see [`is_literal`]). Fractional digits
    /// beyond what a well-formed `Decimal` keeps are rounded half away from
    /// zero; `None` when `text` is no literal, or its integer part reaches
    /// [`MAX_MANTISSA`].
    pub fn parse(text: &str) -> (r: Option<Decimal>)
        ensures
            r == (if is_literal(text@) && literal_fits(text@) {
                Some(literal_decimal(text@))
            } else {
                None
            }),
            r is Some ==> r->0.wf(),
    {
        let cs = chars_of(text);
        let n = cs.len();
        let negative = n > 0 && cs[0] == '-';
        let start: usize = if n > 0 && (cs[0] == '-' || cs[0] == '+') { 1 } else { 0 };
        let ghost b = literal_body(text@);
        proof {
            assert(b =~= cs@.subrange(start as int, n as int));
        }
        let mut i: usize = start;
        let mut mantissa: i128 = 0;
        let mut frac: usize = 0;
        let mut stopped = false;
        let mut round_up = false;
        let mut too_large = false;
        let ghost mut kstop: int = 0;
        let mut dots: usize = 0;
        let mut digits: usize = 0;
        let mut shape_ok = true;
        while i < n
            invariant
                start <= i <= n == cs@.len(),
                cs@ == text@,
                b == cs@.subrange(start as int, n as int),
                dots as nat == dot_count(b.subrange(0, i - start)),
                digits as nat == digit_count(b.subrange(0, i - start)),
                dots <= i,
                digits <= i,
                shape_ok == forall|k: int|
                    0 <= k < i - start ==> is_digit(#[trigger] b[k]) || b[k] == '.',
                0 <= mantissa < MAX_MANTISSA,
                frac <= MAX_SCALE,
                !stopped ==> kept_len(b, 0) == kept_len(b, i - start),
                !stopped ==> mantissa == digits_value(b.subrange(0, i - start)),
                !stopped ==> frac == fraction_digits(b.subrange(0, i - start)),
                stopped ==> 0 <= kstop < i - start && kept_len(b, 0) == kstop,
                stopped ==> mantissa == digits_value(b.subrange(0, kstop)),
                stopped ==> frac == fraction_digits(b.subrange(0, kstop)),
                stopped ==> b[kstop] != '.',
                stopped && !is_digit(b[kstop]) ==> !shape_ok,
                stopped && is_digit(b[kstop]) ==> round_up == (digit_value(b[kstop]) >= 5)
                    && too_large == (dot_count(b.subrange(0, kstop)) == 0),
            decreases n - i,
        {
            let c = cs[i];
            let ghost j = i - start;
            proof {
                lemma_prefix_step(b, j);
                assert(b[j] == c);
                lemma_digits_value_nonneg(b.subrange(0, j));
                assert(MAX_SCALE == 24);
            }
            if '0' <= c && c <= '9' {
                let d = (c as u32 - '0' as u32) as i128;
                if !stopped {
                    if mantissa * 10 + d < MAX_MANTISSA && (dots == 0 || frac < MAX_SCALE as usize) {
                        mantissa = mantissa * 10 + d;
                        if dots > 0 {
                            frac = frac + 1;
                        }
                    } else {
                        stopped = true;
                        proof {
                            kstop = j;
                        }
                        round_up = d >= 5;
                        too_large = dots == 0;
                    }
                }
                digits = digits + 1;
            } else if c == '.' {
                dots = dots + 1;
            } else {
                if !stopped {
                    stopped = true;
                    proof {
                        kstop = j;
                    }
                }
                shape_ok = false;
            }
            i = i + 1;
        }
        proof {
            assert(b.subrange(0, n - start) =~= b);
        }
        if shape_ok && dots <= 1 && digits >= 1 && !(stopped && too_large) {
            let kept: i128 = if stopped && round_up { mantissa + 1 } else { mantissa };
            let m = if negative { -kept } else { kept };
            Some(Decimal { mantissa: m, scale: frac as u32 })
        } else {
            None
        }
    }
}

} // verus!

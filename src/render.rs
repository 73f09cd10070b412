//! Rendering an amount: display rounding to the increment, fixed-point
//! digits, grouping and pattern substitution.
use vstd::prelude::*;
use crate::arith::{
    abs, lemma_pow10_add, lemma_pow10_monotone, lemma_pow10_positive, lemma_pow10_values, pow10,
    pow10_spec, round_div, round_div_spec, ROUND_LIMIT,
};
use crate::currency_opts::{OptsView, CurrencyOpts, MAX_INCREMENT_MANTISSA, MAX_PRECISION};
use crate::grouping::{format_dollar, grouped_standard, grouped_vedic};
use crate::normalize::replaced;
use crate::text::{append_range, chars_of, string_of};

verus! {

/// Largest magnitude, in smallest units, that display rounding starts from.
pub const DISPLAY_LIMIT: i128 = 10_000_000_000_000_000_000_000;

/// The character of the decimal digit `d`.
pub open spec fn digit_char(d: int) -> char {
    ((d + 48) as u8) as char
}

/// The decimal digits of `n`, with leading zeros up to at least `w` digits
/// (and at least one digit).
pub open spec fn padded_digits(n: nat, w: nat) -> Seq<char>
    decreases n + w,
{
    if n < 10 && w <= 1 {
        seq![digit_char(n as int)]
    } else {
        padded_digits(n / 10, if w > 0 { (w - 1) as nat } else { 0 }).push(digit_char((n % 10) as int))
    }
}

/// The amount shown for `units` smallest units under `o`, in smallest
/// units: the amount is rounded to the nearest multiple of the increment
/// (half away from zero), and then, where the increment is finer than the
/// precision, to the nearest smallest unit (half away from zero).
pub open spec fn display_units(units: int, o: OptsView) -> int {
    let inc = o.increment_value();
    let s = inc.scale as nat;
    let p = o.precision;
    let m = inc.mantissa as int;
    let k = round_div_spec(units * pow10_spec(s), pow10_spec(p) * m);
    if s <= p {
        k * m * pow10_spec((p - s) as nat)
    } else {
        round_div_spec(k * m, pow10_spec((s - p) as nat))
    }
}

/// The digits shown: at least `precision + 1` of them, so that the integer
/// part has at least one.
pub open spec fn shown_digits(units: int, o: OptsView) -> Seq<char> {
    padded_digits(abs(display_units(units, o)) as nat, o.precision + 1)
}

/// The integer part of the amount shown, without sign.
pub open spec fn integer_digits(units: int, o: OptsView) -> Seq<char> {
    let ds = shown_digits(units, o);
    ds.subrange(0, ds.len() - o.precision)
}

/// The `precision` fractional digits of the amount shown.
pub open spec fn fraction_digits_shown(units: int, o: OptsView) -> Seq<char> {
    let ds = shown_digits(units, o);
    ds.subrange(ds.len() - o.precision, ds.len() as int)
}

/// The plain fixed-point text of the amount shown: a `-` when it is below
/// zero, the integer digits, and a `.` with the fractional digits when the
/// precision is positive.
pub open spec fn plain_text(units: int, o: OptsView) -> Seq<char> {
    (if display_units(units, o) < 0 {
        seq!['-']
    } else {
        Seq::empty()
    }) + integer_digits(units, o) + (if o.precision > 0 {
        seq!['.'] + fraction_digits_shown(units, o)
    } else {
        Seq::empty()
    })
}

/// The number that stands for `#`: grouped integer digits, then the decimal
/// token and the fractional digits when the precision is positive.
pub open spec fn number_text(units: int, o: OptsView) -> Seq<char> {
    (if o.use_vedic {
        grouped_vedic(integer_digits(units, o), o.separator)
    } else {
        grouped_standard(integer_digits(units, o), o.separator)
    }) + (if o.precision > 0 {
        o.decimal + fraction_digits_shown(units, o)
    } else {
        Seq::empty()
    })
}

/// The formatted amount: the pattern for its sign (`pattern` for amounts at
/// or above zero, `negative_pattern` below), with each `!` replaced by the
/// symbol and then each `#` by the number.
pub open spec fn formatted(units: int, o: OptsView) -> Seq<char> {
    let pat = if units >= 0 {
        o.pattern
    } else {
        o.negative_pattern
    };
    replaced(replaced(pat, seq!['!'], o.symbol), seq!['#'], number_text(units, o))
}

/// Bounds a rounded quotient: `|round(n / d)| * d <= |n| + d`.
proof fn lemma_round_div_times(n: int, d: int)
    requires
        d >= 1,
    ensures
        abs(round_div_spec(n, d)) * d <= abs(n) + d,
{
    if n >= 0 {
        let r = (2 * n + d) / (2 * d);
        assert(r * (2 * d) <= 2 * n + d) by (nonlinear_arith)
            requires
                r == (2 * n + d) / (2 * d),
                d >= 1,
        ;
        assert(r >= 0) by (nonlinear_arith)
            requires
                r == (2 * n + d) / (2 * d),
                d >= 1,
                n >= 0,
        ;
        assert(r * d <= n + d) by (nonlinear_arith)
            requires
                r * (2 * d) <= 2 * n + d,
                d >= 1,
        ;
    } else {
        let r = (-2 * n + d) / (2 * d);
        assert(r * (2 * d) <= -2 * n + d) by (nonlinear_arith)
            requires
                r == (-2 * n + d) / (2 * d),
                d >= 1,
        ;
        assert(r >= 0) by (nonlinear_arith)
            requires
                r == (-2 * n + d) / (2 * d),
                d >= 1,
                n < 0,
        ;
        assert(r * d <= -n + d) by (nonlinear_arith)
            requires
                r * (2 * d) <= -2 * n + d,
                d >= 1,
        ;
    }
}

/// The shown amount of `units` under `opts`, in smallest units.
pub fn display_round(units: i128, opts: &CurrencyOpts) -> (r: i128)
    requires
        opts@.wf(),
        -DISPLAY_LIMIT <= units <= DISPLAY_LIMIT,
    ensures
        r == display_units(units as int, opts@),
        -ROUND_LIMIT <= r <= ROUND_LIMIT,
{
    let inc = opts.increment();
    let p = opts.precision();
    let s = inc.scale;
    let m = inc.mantissa;
    let ghost o = opts@;
    proof {
        assert(inc.mantissa > 0 && inc.mantissa <= MAX_INCREMENT_MANTISSA && inc.scale <= MAX_PRECISION);
        lemma_pow10_values();
        lemma_pow10_monotone(s as nat, 12);
        lemma_pow10_monotone(p as nat, 12);
        lemma_pow10_positive(s as nat);
        lemma_pow10_positive(p as nat);
        assert(ROUND_LIMIT == 1_000_000_000_000_000_000_000_000_000_000_000_000int);
        assert(DISPLAY_LIMIT == 10_000_000_000_000_000_000_000int);
        assert(MAX_INCREMENT_MANTISSA == 1_000_000_000_000int);
        assert(abs(units * pow10_spec(s as nat)) <= 10_000_000_000_000_000_000_000_000_000_000_000)
            by (nonlinear_arith)
            requires
                -10_000_000_000_000_000_000_000int <= units <= 10_000_000_000_000_000_000_000int,
                1 <= pow10_spec(s as nat) <= 1_000_000_000_000,
        ;
        assert(1 <= pow10_spec(p as nat) * m <= 1_000_000_000_000_000_000_000_000) by (nonlinear_arith)
            requires
                1 <= pow10_spec(p as nat) <= 1_000_000_000_000,
                1 <= m <= 1_000_000_000_000,
        ;
    }
    let n = units * pow10(s);
    let d = pow10(p) * m;
    let k = round_div(n, d);
    proof {
        lemma_round_div_times(n as int, d as int);
    }
    if s <= p {
        let t = pow10(p - s);
        proof {
            lemma_pow10_add((p - s) as nat, s as nat);
            assert(((p - s) + s) as nat == p as nat);
            let ps = pow10_spec(s as nat);
            let tt = t as int;
            lemma_pow10_positive((p - s) as nat);
            assert(abs(units * ps) == abs(units as int) * ps) by (nonlinear_arith)
                requires
                    ps >= 1,
            ;
            assert(abs(k as int) * tt * m <= abs(units as int) + tt * m) by (nonlinear_arith)
                requires
                    abs(k as int) * (tt * ps * m) <= abs(units * ps) + tt * ps * m,
                    abs(units * ps) == abs(units as int) * ps,
                    ps >= 1,
                    m >= 1,
                    tt >= 1,
            ;
            assert(abs(k * m) <= abs(k as int) * tt * m && abs(k * m * tt) == abs(k as int) * tt * m)
                by (nonlinear_arith)
                requires
                    tt >= 1,
                    m >= 1,
            ;
            lemma_pow10_monotone((p - s) as nat, 12);
            assert(tt * m <= 1_000_000_000_000_000_000_000_000) by (nonlinear_arith)
                requires
                    1 <= tt <= 1_000_000_000_000,
                    1 <= m <= 1_000_000_000_000,
            ;
        }
        k * m * t
    } else {
        let t = pow10(s - p);
        proof {
            lemma_pow10_add(p as nat, (s - p) as nat);
            assert((p + (s - p)) as nat == s as nat);
            let pp = pow10_spec(p as nat);
            let tt = t as int;
            lemma_pow10_positive((s - p) as nat);
            assert(abs(units * (pp * tt)) == abs(units as int) * tt * pp) by (nonlinear_arith)
                requires
                    pp >= 1,
                    tt >= 1,
            ;
            lemma_pow10_monotone((s - p) as nat, 12);
            assert(abs(k as int) * m <= abs(units as int) * tt + m) by (nonlinear_arith)
                requires
                    abs(k as int) * (pp * m) <= abs(units * (pp * tt)) + pp * m,
                    abs(units * (pp * tt)) == abs(units as int) * tt * pp,
                    pp >= 1,
                    m >= 1,
                    tt >= 1,
            ;
            assert(abs(k * m) == abs(k as int) * m) by (nonlinear_arith)
                requires
                    m >= 1,
            ;
            assert(abs(units as int) * tt <= 10_000_000_000_000_000_000_000_000_000_000_000)
                by (nonlinear_arith)
                requires
                    abs(units as int) <= 10_000_000_000_000_000_000_000int,
                    1 <= tt <= 1_000_000_000_000,
            ;
            crate::arith::lemma_round_div_bound(k * m, tt);
        }
        round_div(k * m, t)
    }
}

/// The decimal digits of `n`, padded with leading zeros to at least `w`.
pub fn digits_padded(n: u128, w: usize) -> (r: Vec<char>)
    ensures
        r@ == padded_digits(n as nat, w as nat),
        r@.len() >= w,
        r@.len() >= 1,
{
    let mut acc: Vec<char> = Vec::new();
    let mut x: u128 = n;
    let mut k: usize = w;
    while x >= 10 || k > 1
        invariant
            padded_digits(n as nat, w as nat) == padded_digits(x as nat, k as nat) + acc@,
            acc@.len() + k >= w,
        decreases x + k,
    {
        let d = (x % 10) as u8;
        let c = (48u8 + d) as char;
        let ghost before = acc@;
        acc.insert(0, c);
        proof {
            let k2: nat = if k > 0 { (k - 1) as nat } else { 0 };
            assert(padded_digits(x as nat, k as nat) == padded_digits((x / 10) as nat, k2).push(
                digit_char((x % 10) as int),
            ));
            assert(padded_digits((x / 10) as nat, k2).push(digit_char((x % 10) as int)) + before
                =~= padded_digits((x / 10) as nat, k2) + acc@);
        }
        x = x / 10;
        k = if k > 0 { k - 1 } else { 0 };
    }
    let c = (48u8 + x as u8) as char;
    acc.insert(0, c);
    proof {
        assert(padded_digits(x as nat, k as nat) == seq![digit_char(x as int)]);
    }
    acc
}

/// `s` with each `c` replaced by `w`.
fn replace_char(s: &Vec<char>, c: char, w: &Vec<char>) -> (r: Vec<char>)
    ensures
        r@ == replaced(s@, seq![c], w@),
{
    let mut out: Vec<char> = Vec::new();
    let mut i: usize = 0;
    proof {
        assert(s@.subrange(0, s@.len() as int) =~= s@);
        assert(Seq::<char>::empty() + s@ =~= s@);
    }
    while i < s.len()
        invariant
            i <= s@.len(),
            replaced(s@, seq![c], w@) == out@ + replaced(
                s@.subrange(i as int, s@.len() as int),
                seq![c],
                w@,
            ),
        decreases s@.len() - i,
    {
        let ghost rest = s@.subrange(i as int, s@.len() as int);
        proof {
            assert(rest.subrange(1, rest.len() as int) =~= s@.subrange(i + 1, s@.len() as int));
            assert(rest.subrange(0, 1) =~= seq![s@[i as int]]);
        }
        if s[i] == c {
            let wl = w.len();
            append_range(&mut out, w, 0, wl);
            proof {
                assert(w@.subrange(0, wl as int) =~= w@);
            }
        } else {
            out.push(s[i]);
            proof {
                assert(seq![s@[i as int]] != seq![c]) by {
                    assert(seq![s@[i as int]][0] != seq![c][0]);
                }
            }
        }
        i = i + 1;
    }
    proof {
        assert(s@.subrange(s@.len() as int, s@.len() as int) =~= Seq::<char>::empty());
        assert(out@ + Seq::<char>::empty() =~= out@);
    }
    out
}

/// The digits shown for `units`, split into integer and fractional parts.
fn shown_parts(units: i128, opts: &CurrencyOpts) -> (r: (i128, Vec<char>, Vec<char>))
    requires
        opts@.wf(),
        -DISPLAY_LIMIT <= units <= DISPLAY_LIMIT,
    ensures
        r.0 == display_units(units as int, opts@),
        r.1@ == integer_digits(units as int, opts@),
        r.2@ == fraction_digits_shown(units as int, opts@),
{
    let shown = display_round(units, opts);
    let p = opts.precision() as usize;
    let mag: u128 = if shown >= 0 { shown as u128 } else { (-shown) as u128 };
    let ds = digits_padded(mag, p + 1);
    let n = ds.len();
    let mut int_part: Vec<char> = Vec::new();
    append_range(&mut int_part, &ds, 0, n - p);
    let mut frac_part: Vec<char> = Vec::new();
    append_range(&mut frac_part, &ds, n - p, n);
    proof {
        assert(Seq::<char>::empty() + ds@.subrange(0, n - p) =~= ds@.subrange(0, n - p));
        assert(Seq::<char>::empty() + ds@.subrange(n - p, n as int) =~= ds@.subrange(
            n - p,
            n as int,
        ));
    }
    (shown, int_part, frac_part)
}

/// The plain fixed-point text of `units` under `opts`.
pub fn plain_string(units: i128, opts: &CurrencyOpts) -> (r: String)
    requires
        opts@.wf(),
        -DISPLAY_LIMIT <= units <= DISPLAY_LIMIT,
    ensures
        r@ == plain_text(units as int, opts@),
{
    let (shown, int_part, frac_part) = shown_parts(units, opts);
    let mut out: Vec<char> = Vec::new();
    if shown < 0 {
        out.push('-');
    }
    let il = int_part.len();
    append_range(&mut out, &int_part, 0, il);
    if opts.precision() > 0 {
        out.push('.');
        let fl = frac_part.len();
        append_range(&mut out, &frac_part, 0, fl);
    }
    proof {
        assert(int_part@.subrange(0, il as int) =~= int_part@);
        assert(frac_part@.subrange(0, frac_part@.len() as int) =~= frac_part@);
        let sign: Seq<char> = if shown < 0 { seq!['-'] } else { Seq::empty() };
        let tail: Seq<char> = if opts@.precision > 0 {
            seq!['.'] + frac_part@
        } else {
            Seq::empty()
        };
        assert(out@ =~= sign + int_part@ + tail);
    }
    string_of(&out)
}

/// The formatted text of `units` under `opts`.
pub fn format_units(units: i128, opts: &CurrencyOpts) -> (r: String)
    requires
        opts@.wf(),
        -DISPLAY_LIMIT <= units <= DISPLAY_LIMIT,
    ensures
        r@ == formatted(units as int, opts@),
{
    let (_shown, int_part, frac_part) = shown_parts(units, opts);
    let grouped = format_dollar(opts.use_vedic(), string_of(&int_part), opts.separator());
    let mut number = chars_of(grouped.as_str());
    if opts.precision() > 0 {
        let dec = chars_of(opts.decimal().as_str());
        let dl = dec.len();
        append_range(&mut number, &dec, 0, dl);
        let fl = frac_part.len();
        append_range(&mut number, &frac_part, 0, fl);
        proof {
            assert(dec@.subrange(0, dl as int) =~= dec@);
            assert(frac_part@.subrange(0, fl as int) =~= frac_part@);
        }
    }
    proof {
        let tail: Seq<char> = if opts@.precision > 0 {
            opts@.decimal + frac_part@
        } else {
            Seq::empty()
        };
        assert(number@ =~= grouped@ + tail);
    }
    let pat = if units >= 0 {
        chars_of(opts.pattern().as_str())
    } else {
        chars_of(opts.negative_pattern().as_str())
    };
    let symbol = chars_of(opts.symbol().as_str());
    let with_symbol = replace_char(&pat, '!', &symbol);
    let out = replace_char(&with_symbol, '#', &number);
    string_of(&out)
}

} // verus!

//! The monetary value type: an amount held as a whole number of smallest
//! units, with the options it was made with.
use vstd::prelude::*;
use crate::arith::{
    abs, lemma_pow10_monotone, lemma_pow10_positive, lemma_pow10_values, pow10, pow10_spec,
    lemma_cleanup_exact, round_div, round_div_spec, scale_round, scale_round_spec, ROUND_LIMIT,
    SCALE_LIMIT,
};
use crate::currency_opts::{CurrencyOpts, OptsView};
use crate::decimal::{is_literal, literal_decimal, literal_fits, Decimal, MAX_MANTISSA, MAX_SCALE};
use crate::normalize::{normalize, normalized};
use crate::render::{format_units, formatted, plain_string, plain_text, DISPLAY_LIMIT};

verus! {

/// Largest magnitude, in smallest units, of a value.
pub const MAX_UNITS: i128 = 10_000_000_000_000_000_000_000;

/// Why text gave no amount.
#[derive(Clone, Debug, PartialEq, Eq)]
pub enum CurrencyErr {
    ParseErr(String),
}

/// A value as mathematical data: its amount in smallest units and its options.
pub struct CurrencyView {
    pub int_value: int,
    pub opts: OptsView,
}

/// An amount of money.
#[derive(Clone, Debug)]
pub struct Currency {
    int_value: i128,
    opts: CurrencyOpts,
}

impl View for Currency {
    type V = CurrencyView;

    closed spec fn view(&self) -> CurrencyView {
        CurrencyView { int_value: self.int_value as int, opts: self.opts@ }
    }
}

/// The options given, or the defaults when none are.
pub open spec fn resolved(opts: Option<CurrencyOpts>) -> OptsView {
    match opts {
        Some(o) => o@,
        None => OptsView::default_view(),
    }
}

/// How many smallest units one unit of input counts for: one when input is
/// already in cents, else `10^precision`.
pub open spec fn unit_scale(o: OptsView) -> int {
    if o.from_cents {
        1
    } else {
        pow10_spec(o.precision)
    }
}

/// The whole number of smallest units that `a` stands for under `o`:
/// `a * 10^precision` (or `a` itself in cents), cleaned to four decimals and
/// rounded half away from zero.
pub open spec fn amount_units(a: Decimal, o: OptsView) -> int {
    scale_round_spec(a.mantissa * unit_scale(o), pow10_spec(a.scale as nat), o.from_cents)
}

/// The product of `units` and `factor`, rescaled to whole units.
pub open spec fn product_units(units: int, factor: Decimal, o: OptsView) -> int {
    scale_round_spec(units * factor.mantissa, pow10_spec(factor.scale as nat), o.from_cents)
}

/// A divisor in the form division uses: in cents, as given; else scaled by
/// `10^precision` and cleaned to four decimals, counted in ten-thousandths.
pub open spec fn divisor_units(d: Decimal, o: OptsView) -> int {
    if o.from_cents {
        d.mantissa as int
    } else {
        round_div_spec(d.mantissa * pow10_spec(o.precision + 4), pow10_spec(d.scale as nat))
    }
}

/// Whether dividing by `d` does anything: `d` is positive and does not
/// vanish when cleaned to four decimals.
pub open spec fn divides(d: Decimal, o: OptsView) -> bool {
    d.mantissa > 0 && divisor_units(d, o) > 0
}

/// What a division's quotient is scaled by before rounding to whole units.
pub open spec fn dividend_scale(d: Decimal, o: OptsView) -> int {
    if o.from_cents {
        pow10_spec(d.scale as nat)
    } else {
        pow10_spec(o.precision + 4)
    }
}

/// Units of the quotient of `units` by `d`: the quotient is read back as an
/// amount, so it is scaled and rounded the way a new amount is.
pub open spec fn quotient_units(units: int, d: Decimal, o: OptsView) -> int {
    scale_round_spec(units * dividend_scale(d, o), divisor_units(d, o), o.from_cents)
}

proof fn lemma_scales(o: OptsView, s: nat)
    requires
        o.wf(),
        s <= MAX_SCALE,
    ensures
        1 <= unit_scale(o) <= 1_000_000_000_000,
        1 <= pow10_spec(o.precision) <= 1_000_000_000_000,
        1 <= pow10_spec(s) <= 1_000_000_000_000_000_000_000_000,
        1 <= pow10_spec(o.precision + 4) <= 10_000_000_000_000_000,
{
    lemma_pow10_values();
    lemma_pow10_monotone(o.precision, 12);
    lemma_pow10_monotone(s, 24);
    lemma_pow10_positive(o.precision);
    lemma_pow10_positive(s);
    lemma_pow10_positive(o.precision + 4);
    crate::arith::lemma_pow10_add(o.precision, 4);
    assert(pow10_spec(o.precision + 4) == pow10_spec(o.precision) * 10000);
}

/// Units of `a` under `opts`.
fn units_of(a: Decimal, opts: &CurrencyOpts) -> (r: i128)
    requires
        a.wf(),
        opts@.wf(),
    ensures
        r == amount_units(a, opts@),
        -SCALE_LIMIT <= r <= SCALE_LIMIT,
{
    proof {
        lemma_scales(opts@, a.scale as nat);
        assert(MAX_MANTISSA == 100_000_000_000_000_000_000int);
        assert(abs(a.mantissa * unit_scale(opts@)) <= 100_000_000_000_000_000_000_000_000_000_000)
            by (nonlinear_arith)
            requires
                -100_000_000_000_000_000_000int <= a.mantissa <= 100_000_000_000_000_000_000int,
                1 <= unit_scale(opts@) <= 1_000_000_000_000,
        ;
    }
    let p = opts.precision();
    let scale: i128 = if opts.from_cents() { 1 } else { pow10(p) };
    let den = pow10(a.scale);
    scale_round(a.mantissa * scale, den, opts.from_cents())
}

impl Currency {
    /// Well-formed: valid options and an amount within [`MAX_UNITS`].
    pub open spec fn wf(&self) -> bool {
        &&& self@.opts.wf()
        &&& -MAX_UNITS <= self@.int_value <= MAX_UNITS
    }

    /// A value holding `int_value` smallest units under `opts`.
    fn from_units(int_value: i128, opts: CurrencyOpts) -> (r: Self)
        ensures
            r@ == (CurrencyView { int_value: int_value as int, opts: opts@ }),
    {
        Currency { int_value, opts }
    }

    /// The amount as a decimal: `int_value / 10^precision`.
    pub fn value(&self) -> (r: Decimal)
        ensures
            r.mantissa == self@.int_value,
            r.scale == self@.opts.precision,
    {
        Decimal { mantissa: self.int_value, scale: self.opts.precision() }
    }

    /// The amount in smallest units.
    pub fn int_value(&self) -> (r: i128)
        ensures
            r == self@.int_value,
    {
        self.int_value
    }

    /// A value of `value` under `opts` (the defaults when `None`): its units
    /// are `value * 10^precision` rounded half away from zero, or `value`
    /// rounded when the options take input in cents.
    pub fn new_float(value: Decimal, opts: Option<CurrencyOpts>) -> (r: Self)
        requires
            value.wf(),
            resolved(opts).wf(),
            -MAX_UNITS <= amount_units(value, resolved(opts)) <= MAX_UNITS,
        ensures
            r.wf(),
            r@ == (CurrencyView {
                int_value: amount_units(value, resolved(opts)),
                opts: resolved(opts),
            }),
    {
        let o = match opts {
            Some(o) => o,
            None => CurrencyOpts::new(),
        };
        let u = units_of(value, &o);
        Self::from_units(u, o)
    }

    /// A value read from `text` under `opts` (the defaults when `None`).
    /// The text is normalized (parentheses become a sign; everything but
    /// digits, `-` and the decimal token is dropped; the token becomes `.`)
    /// and read as a literal. Text that gives no amount, or one too large to
    /// carry, is an error when the options ask for errors, and zero otherwise.
    pub fn new_string(value: &str, opts: Option<CurrencyOpts>) -> (r: Result<Self, CurrencyErr>)
        requires
            resolved(opts).wf(),
        ensures
            r is Ok <==> (text_units(value@, resolved(opts)) is Some
                || !resolved(opts).error_on_invalid),
            r is Ok ==> r->Ok_0.wf() && r->Ok_0@ == (CurrencyView {
                int_value: match text_units(value@, resolved(opts)) {
                    Some(u) => u,
                    None => 0,
                },
                opts: resolved(opts),
            }),
    {
        let o = match opts {
            Some(o) => o,
            None => CurrencyOpts::new(),
        };
        match parse_string(value, &o) {
            Some(d) => {
                let u = units_of(d, &o);
                if -MAX_UNITS <= u && u <= MAX_UNITS {
                    return Ok(Self::from_units(u, o));
                }
            },
            None => {},
        }
        if o.error_on_invalid() {
            Err(parse_error())
        } else {
            Ok(Self::from_units(0, o))
        }
    }

    /// This value plus the amount that `number` holds under this value's
    /// options. Text that gives no amount, or a sum too large to carry, is an
    /// error when the options ask for errors, and adds nothing otherwise.
    pub fn add_string(self, number: &str) -> (r: Result<Self, CurrencyErr>)
        requires
            self.wf(),
        ensures
            r is Ok <==> (sum_fits(self@, number@) || !self@.opts.error_on_invalid),
            r is Ok ==> r->Ok_0.wf() && r->Ok_0@ == (CurrencyView {
                int_value: if sum_fits(self@, number@) {
                    self@.int_value + amount_units(text_amount(number@, self@.opts)->0, self@.opts)
                } else {
                    self@.int_value
                },
                opts: self@.opts,
            }),
    {
        match parse_string(number, &self.opts) {
            Some(d) => {
                let u = units_of(d, &self.opts);
                let sum = self.int_value + u;
                if -MAX_UNITS <= sum && sum <= MAX_UNITS {
                    return Ok(Self::from_units(sum, self.opts));
                }
            },
            None => {},
        }
        if self.opts.error_on_invalid() {
            Err(parse_error())
        } else {
            Ok(self)
        }
    }

    /// The amount of `cur` carried over to `opts` (the defaults when
    /// `None`): `cur`'s decimal amount is read anew under those options.
    pub fn new_cur(cur: Self, opts: Option<CurrencyOpts>) -> (r: Self)
        requires
            cur.wf(),
            resolved(opts).wf(),
            -SCALE_LIMIT <= cur@.int_value * unit_scale(resolved(opts)) <= SCALE_LIMIT,
            -MAX_UNITS <= scale_round_spec(
                cur@.int_value * unit_scale(resolved(opts)),
                pow10_spec(cur@.opts.precision),
                resolved(opts).from_cents,
            ) <= MAX_UNITS,
        ensures
            r.wf(),
            r@ == (CurrencyView {
                int_value: scale_round_spec(
                    cur@.int_value * unit_scale(resolved(opts)),
                    pow10_spec(cur@.opts.precision),
                    resolved(opts).from_cents,
                ),
                opts: resolved(opts),
            }),
    {
        let o = match opts {
            Some(o) => o,
            None => CurrencyOpts::new(),
        };
        proof {
            lemma_scales(o@, 0);
            lemma_scales(cur@.opts, 0);
            assert(ROUND_LIMIT == 1_000_000_000_000_000_000_000_000_000_000_000_000int);
        }
        let scale: i128 = if o.from_cents() { 1 } else { pow10(o.precision()) };
        let den = pow10(cur.opts.precision());
        let u = scale_round(cur.int_value * scale, den, o.from_cents());
        Self::from_units(u, o)
    }

    /// This value plus `number`, read as an amount under this value's
    /// options: units are added exactly.
    pub fn add(self, number: Decimal) -> (r: Self)
        requires
            self.wf(),
            number.wf(),
            -MAX_UNITS <= self@.int_value + amount_units(number, self@.opts) <= MAX_UNITS,
        ensures
            r.wf(),
            r@ == (CurrencyView {
                int_value: self@.int_value + amount_units(number, self@.opts),
                opts: self@.opts,
            }),
    {
        let u = units_of(number, &self.opts);
        Self::from_units(self.int_value + u, self.opts)
    }

    /// This value minus `number`, read as an amount under this value's
    /// options.
    pub fn subtract(self, number: Decimal) -> (r: Self)
        requires
            self.wf(),
            number.wf(),
            -MAX_UNITS <= self@.int_value - amount_units(number, self@.opts) <= MAX_UNITS,
        ensures
            r.wf(),
            r@ == (CurrencyView {
                int_value: self@.int_value - amount_units(number, self@.opts),
                opts: self@.opts,
            }),
    {
        let u = units_of(number, &self.opts);
        Self::from_units(self.int_value - u, self.opts)
    }

    /// This value times `number`: the units are multiplied exactly, then
    /// rounded back to whole units.
    pub fn multiply(self, number: Decimal) -> (r: Self)
        requires
            self.wf(),
            number.wf(),
            -SCALE_LIMIT <= self@.int_value * number.mantissa <= SCALE_LIMIT,
            -MAX_UNITS <= product_units(self@.int_value, number, self@.opts) <= MAX_UNITS,
        ensures
            r.wf(),
            r@ == (CurrencyView {
                int_value: product_units(self@.int_value, number, self@.opts),
                opts: self@.opts,
            }),
    {
        proof {
            lemma_scales(self@.opts, number.scale as nat);
            assert(ROUND_LIMIT == 1_000_000_000_000_000_000_000_000_000_000_000_000int);
        }
        let den = pow10(number.scale);
        let u = scale_round(self.int_value * number.mantissa, den, self.opts.from_cents());
        Self::from_units(u, self.opts)
    }

    /// This value divided by `number`. A divisor that is not positive, or
    /// that vanishes when cleaned to four decimals, leaves the value as it is.
    pub fn divide(self, number: Decimal) -> (r: Self)
        requires
            self.wf(),
            number.wf(),
            divides(number, self@.opts) ==> -SCALE_LIMIT <= self@.int_value * dividend_scale(
                number,
                self@.opts,
            ) <= SCALE_LIMIT,
            divides(number, self@.opts) ==> -MAX_UNITS <= quotient_units(
                self@.int_value,
                number,
                self@.opts,
            ) <= MAX_UNITS,
        ensures
            r.wf(),
            r@ == (if divides(number, self@.opts) {
                CurrencyView {
                    int_value: quotient_units(self@.int_value, number, self@.opts),
                    opts: self@.opts,
                }
            } else {
                self@
            }),
    {
        if number.mantissa <= 0 {
            return self;
        }
        proof {
            lemma_scales(self@.opts, number.scale as nat);
            assert(ROUND_LIMIT == 1_000_000_000_000_000_000_000_000_000_000_000_000int);
            assert(MAX_MANTISSA == 100_000_000_000_000_000_000int);
            assert(0 < number.mantissa * pow10_spec(self@.opts.precision + 4)
                <= 1_000_000_000_000_000_000_000_000_000_000_000_000) by (nonlinear_arith)
                requires
                    0 < number.mantissa <= 100_000_000_000_000_000_000int,
                    1 <= pow10_spec(self@.opts.precision + 4) <= 10_000_000_000_000_000,
            ;
        }
        let from_cents = self.opts.from_cents();
        let divisor: i128 = if from_cents {
            number.mantissa
        } else {
            let p4 = pow10(self.opts.precision() + 4);
            round_div(number.mantissa * p4, pow10(number.scale))
        };
        if divisor <= 0 {
            return self;
        }
        proof {
            crate::arith::lemma_round_div_bound(
                number.mantissa * pow10_spec(self@.opts.precision + 4),
                pow10_spec(number.scale as nat),
            );
        }
        let scale: i128 = if from_cents {
            pow10(number.scale)
        } else {
            pow10(self.opts.precision() + 4)
        };
        let u = scale_round(self.int_value * scale, divisor, from_cents);
        Self::from_units(u, self.opts)
    }

    /// Splits this value into `|count|` parts, in order. Each part has the
    /// even share of the units over `|count|` parts, cut toward zero, and the
    /// units left over go one each to the first parts, in the direction of
    /// the value's sign. The parts add up to this value exactly.
    pub fn distribute(self, count: i64) -> (r: Vec<Currency>)
        requires
            self.wf(),
            count != 0,
        ensures
            r@.len() == abs(count as int),
            forall|i: int|
                0 <= i < r@.len() ==> (#[trigger] r@[i]).wf() && r@[i]@ == (CurrencyView {
                    int_value: share_units(self@.int_value, count as int, i),
                    opts: self@.opts,
                }),
            total_units(r@) == self@.int_value,
    {
        let units = self.int_value;
        let a: i128 = if units >= 0 { units } else { -units };
        let c: i128 = if count >= 0 { count as i128 } else { -(count as i128) };
        let q = a / c;
        let pennies = a % c;
        let split: i128 = if units >= 0 { q } else { -q };
        let step: i128 = if units >= 0 { 1 } else { -1 };
        proof {
            let ui = units as int;
            let ci = count as int;
            assert(a == abs(ui));
            assert(c == abs(ci));
            assert(a == q * c + pennies && 0 <= pennies < c) by (nonlinear_arith)
                requires
                    q == a / c,
                    pennies == a % c,
                    c > 0,
                    a >= 0,
            ;
            assert(0 <= q <= a) by (nonlinear_arith)
                requires
                    q == a / c,
                    c >= 1,
                    a >= 0,
            ;
            assert(split_units(ui, ci) == split as int);
            assert(leftover_units(ui, ci) == pennies as int) by (nonlinear_arith)
                requires
                    leftover_units(ui, ci) == a - q * c,
                    a == q * c + pennies,
            ;
            if pennies > 0 {
                assert(q < a) by (nonlinear_arith)
                    requires
                        a == q * c + pennies,
                        pennies > 0,
                        q >= 0,
                        c >= 1,
                ;
            }
        }
        let mut parts: Vec<Currency> = Vec::new();
        let mut i: i128 = 0;
        while i < c
            invariant
                0 <= i <= c,
                c == abs(count as int),
                0 <= pennies < c,
                self.wf(),
                split == split_units(self@.int_value, count as int),
                pennies == leftover_units(self@.int_value, count as int),
                step == (if self@.int_value >= 0 { 1int } else { -1int }),
                pennies > 0 ==> abs(split as int) < abs(self@.int_value),
                abs(split as int) <= abs(self@.int_value),
                parts@.len() == i,
                forall|k: int|
                    0 <= k < i ==> (#[trigger] parts@[k]).wf() && parts@[k]@ == (CurrencyView {
                        int_value: share_units(self@.int_value, count as int, k),
                        opts: self@.opts,
                    }),
                total_units(parts@) == i * split + (if i < pennies { i as int } else {
                    pennies as int
                }) * step,
            decreases c - i,
        {
            let u: i128 = if i < pennies { split + step } else { split };
            let part = Self::from_units(u, self.opts.duplicate());
            let ghost before = parts@;
            parts.push(part);
            proof {
                assert(parts@.drop_last() =~= before);
                assert(total_units(parts@) == total_units(before) + u);
                assert(i * split + split == (i + 1) * split) by (nonlinear_arith);
                let b0: int = if i < pennies { i as int } else { pennies as int };
                let b1: int = if i + 1 < pennies { i + 1 } else { pennies as int };
                if i < pennies {
                    assert(b1 == b0 + 1);
                    assert((b0 + 1) * step == b0 * step + step) by (nonlinear_arith);
                } else {
                    assert(b1 == b0);
                }
            }
            i = i + 1;
        }
        proof {
            assert(c * split + pennies * step == self@.int_value) by (nonlinear_arith)
                requires
                    c > 0,
                    split == (if self@.int_value >= 0 { q as int } else { -q }),
                    abs(self@.int_value) == q * c + pennies,
                    step == (if self@.int_value >= 0 { 1int } else { -1int }),
            ;
        }
        parts
    }

    /// The amount rendered with the options: rounded to the increment for
    /// display, digits grouped, and put into the pattern for its sign. The
    /// stored amount is left as it is.
    pub fn format(&self) -> (r: String)
        requires
            self.wf(),
        ensures
            r@ == formatted(self@.int_value, self@.opts),
    {
        proof {
            assert(DISPLAY_LIMIT == MAX_UNITS);
        }
        format_units(self.int_value, &self.opts)
    }

    /// The amount as plain fixed-point text: rounded to the increment for
    /// display, with exactly `precision` fractional digits and a leading `-`
    /// when below zero; no symbol and no grouping.
    pub fn to_string(&self) -> (r: String)
        requires
            self.wf(),
        ensures
            r@ == plain_text(self@.int_value, self@.opts),
    {
        proof {
            assert(DISPLAY_LIMIT == MAX_UNITS);
        }
        plain_string(self.int_value, &self.opts)
    }

    /// The fractional part of the amount in smallest units: the remainder of
    /// its magnitude by `10^precision` (`-1.23` gives 23).
    pub fn cents(&self) -> (r: u64)
        requires
            self.wf(),
        ensures
            r == abs(self@.int_value) % pow10_spec(self@.opts.precision),
    {
        proof {
            lemma_scales(self@.opts, 0);
        }
        let magnitude: i128 = if self.int_value >= 0 { self.int_value } else { -self.int_value };
        (magnitude % pow10(self.opts.precision())) as u64
    }

    /// The whole part of the amount, cut toward zero, held to the range of
    /// `i64`.
    pub fn dollars(&self) -> (r: i64)
        requires
            self.wf(),
        ensures
            r == clamp_i64(
                if self@.int_value >= 0 {
                    self@.int_value / pow10_spec(self@.opts.precision)
                } else {
                    -((-self@.int_value) / pow10_spec(self@.opts.precision))
                },
            ),
    {
        proof {
            lemma_scales(self@.opts, 0);
        }
        let p = pow10(self.opts.precision());
        let whole: i128 = if self.int_value >= 0 {
            self.int_value / p
        } else {
            -((-self.int_value) / p)
        };
        if whole > i64::MAX as i128 {
            i64::MAX
        } else if whole < i64::MIN as i128 {
            i64::MIN
        } else {
            whole as i64
        }
    }
}

/// The even share of `units` over `|count|` parts, cut toward zero so that
/// it keeps the sign of `units`.
pub open spec fn split_units(units: int, count: int) -> int {
    if units >= 0 {
        units / abs(count)
    } else {
        -((-units) / abs(count))
    }
}

/// The smallest units left over once every part has its even share.
pub open spec fn leftover_units(units: int, count: int) -> int {
    abs(units) - abs(split_units(units, count)) * abs(count)
}

/// The units of part `i` of a distribution: the even share, and one unit
/// more in the direction of the sign for each of the first parts while
/// leftover units remain.
pub open spec fn share_units(units: int, count: int, i: int) -> int {
    if i < leftover_units(units, count) {
        split_units(units, count) + (if units >= 0 { 1int } else { -1int })
    } else {
        split_units(units, count)
    }
}

/// Sum of the units of a sequence of values.
pub open spec fn total_units(vs: Seq<Currency>) -> int
    decreases vs.len(),
{
    if vs.len() == 0 {
        0
    } else {
        total_units(vs.drop_last()) + vs.last()@.int_value
    }
}

/// The amount that `text` holds under `o`: its normal form read as a
/// literal, when that is a literal a well-formed [`Decimal`] holds.
pub open spec fn text_amount(text: Seq<char>, o: OptsView) -> Option<Decimal> {
    let lit = normalized(text, o.decimal);
    if is_literal(lit) && literal_fits(lit) {
        Some(literal_decimal(lit))
    } else {
        None
    }
}

/// The units of the amount that `text` holds under `o`, when it holds one
/// that a value can carry.
pub open spec fn text_units(text: Seq<char>, o: OptsView) -> Option<int> {
    match text_amount(text, o) {
        Some(d) => if -MAX_UNITS <= amount_units(d, o) <= MAX_UNITS {
            Some(amount_units(d, o))
        } else {
            None
        },
        None => None,
    }
}

/// The amount that `text` holds under `opts`, if any.
fn parse_string(value: &str, opts: &CurrencyOpts) -> (r: Option<Decimal>)
    requires
        opts@.wf(),
    ensures
        r == text_amount(value@, opts@),
        r is Some ==> r->0.wf(),
{
    let dec = opts.decimal();
    let lit = normalize(value, dec.as_str());
    Decimal::parse(lit.as_str())
}

/// Whether `text` holds an amount under `v`'s options whose sum with `v`
/// a value can carry.
pub open spec fn sum_fits(v: CurrencyView, text: Seq<char>) -> bool {
    &&& text_amount(text, v.opts) is Some
    &&& -MAX_UNITS <= v.int_value + amount_units(text_amount(text, v.opts)->0, v.opts) <= MAX_UNITS
}

/// The error for text that holds no amount.
fn parse_error() -> CurrencyErr {
    CurrencyErr::ParseErr("invalid decimal literal".to_owned())
}

/// `x` held to the range of `i64`.
pub open spec fn clamp_i64(x: int) -> int {
    if x > i64::MAX {
        i64::MAX as int
    } else if x < i64::MIN {
        i64::MIN as int
    } else {
        x
    }
}

/// Reading an amount scales it exactly: with input not in cents and at most
/// `precision + 4` fractional digits, so that the four-decimal cleanup
/// changes nothing, the units of a value read from `a` are `a * 10^precision`
/// rounded half away from zero.
pub proof fn lemma_round_trip_scale(a: Decimal, o: OptsView)
    requires
        a.wf(),
        o.wf(),
        !o.from_cents,
        a.scale <= o.precision + 4,
    ensures
        amount_units(a, o) == round_div_spec(
            a.mantissa * pow10_spec(o.precision),
            pow10_spec(a.scale as nat),
        ),
{
    lemma_cleanup_exact(a.mantissa as int, o.precision, a.scale as nat);
}

/// Formatting depends on the stored amount and options alone: two values
/// that agree on them render alike, so formatting a value twice gives the
/// same text. `format` and `to_string` only borrow the value, which keeps its
/// amount.
pub proof fn lemma_format_idempotent(v: Currency, w: Currency)
    requires
        v@ == w@,
    ensures
        formatted(v@.int_value, v@.opts) == formatted(w@.int_value, w@.opts),
        plain_text(v@.int_value, v@.opts) == plain_text(w@.int_value, w@.opts),
{
}

} // verus!

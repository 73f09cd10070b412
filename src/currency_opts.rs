//! The formatting and parsing options of a value, built up by setters that
//! each return a new set of options.
use vstd::prelude::*;
use crate::decimal::Decimal;
use crate::normalize::valid_token;

verus! {

/// Largest number of fractional digits a value can keep.
pub const MAX_PRECISION: u32 = 12;

/// Largest mantissa of a rounding increment.
pub const MAX_INCREMENT_MANTISSA: i128 = 1_000_000_000_000;

/// The options as mathematical values.
pub struct OptsView {
    pub symbol: Seq<char>,
    pub separator: Seq<char>,
    pub decimal: Seq<char>,
    pub precision: nat,
    pub pattern: Seq<char>,
    pub negative_pattern: Seq<char>,
    pub from_cents: bool,
    pub increment: Option<Decimal>,
    pub use_vedic: bool,
    pub error_on_invalid: bool,
}

/// A rounding increment that display rounding can use: positive, with at
/// most [`MAX_PRECISION`] fractional digits.
pub open spec fn valid_increment(d: Decimal) -> bool {
    0 < d.mantissa <= MAX_INCREMENT_MANTISSA && d.scale <= MAX_PRECISION
}

impl OptsView {
    pub open spec fn wf(self) -> bool {
        &&& self.precision <= MAX_PRECISION
        &&& valid_token(self.decimal)
        &&& self.increment is Some ==> valid_increment(self.increment->0)
    }

    /// The display increment: the one set, or one smallest unit
    /// (`1 / 10^precision`).
    pub open spec fn increment_value(self) -> Decimal {
        match self.increment {
            Some(d) => d,
            None => Decimal { mantissa: 1, scale: self.precision as u32 },
        }
    }

    /// The defaults: `$`, `,`, `.`, precision 2, patterns `!#` and `-!#`,
    /// amounts not in cents, no increment, standard grouping, and invalid
    /// text read as zero.
    pub open spec fn default_view() -> OptsView {
        OptsView {
            symbol: seq!['$'],
            separator: seq![','],
            decimal: seq!['.'],
            precision: 2,
            pattern: seq!['!', '#'],
            negative_pattern: seq!['-', '!', '#'],
            from_cents: false,
            increment: None,
            use_vedic: false,
            error_on_invalid: false,
        }
    }
}

/// Options for formatting and parsing amounts.
#[derive(Clone, Debug)]
pub struct CurrencyOpts {
    symbol: String,
    separator: String,
    decimal: String,
    precision: u32,
    pattern: String,
    negative_pattern: String,
    from_cents: bool,
    increment: Option<Decimal>,
    use_vedic: bool,
    error_on_invalid: bool,
}

impl View for CurrencyOpts {
    type V = OptsView;

    closed spec fn view(&self) -> OptsView {
        OptsView {
            symbol: self.symbol@,
            separator: self.separator@,
            decimal: self.decimal@,
            precision: self.precision as nat,
            pattern: self.pattern@,
            negative_pattern: self.negative_pattern@,
            from_cents: self.from_cents,
            increment: self.increment,
            use_vedic: self.use_vedic,
            error_on_invalid: self.error_on_invalid,
        }
    }
}

impl Default for CurrencyOpts {
    fn default() -> (r: Self)
        ensures
            r@ == OptsView::default_view(),
    {
        proof {
            reveal_strlit("$");
            reveal_strlit(",");
            reveal_strlit(".");
            reveal_strlit("!#");
            reveal_strlit("-!#");
        }
        let r = CurrencyOpts {
            symbol: "$".to_owned(),
            separator: ",".to_owned(),
            decimal: ".".to_owned(),
            precision: 2,
            pattern: "!#".to_owned(),
            negative_pattern: "-!#".to_owned(),
            from_cents: false,
            increment: None,
            use_vedic: false,
            error_on_invalid: false,
        };
        proof {
            assert(r@.symbol =~= seq!['$']);
            assert(r@.separator =~= seq![',']);
            assert(r@.decimal =~= seq!['.']);
            assert(r@.pattern =~= seq!['!', '#']);
            assert(r@.negative_pattern =~= seq!['-', '!', '#']);
        }
        r
    }
}

proof fn lemma_default_wf()
    ensures
        OptsView::default_view().wf(),
{
    assert(MAX_PRECISION == 12);
}

impl CurrencyOpts {
    /// The default options.
    pub fn new() -> (r: Self)
        ensures
            r@ == OptsView::default_view(),
            r@.wf(),
    {
        proof {
            lemma_default_wf();
        }
        Self::default()
    }

    /// A copy of these options.
    pub fn duplicate(&self) -> (r: Self)
        ensures
            r@ == self@,
    {
        CurrencyOpts {
            symbol: self.symbol.clone(),
            separator: self.separator.clone(),
            decimal: self.decimal.clone(),
            precision: self.precision,
            pattern: self.pattern.clone(),
            negative_pattern: self.negative_pattern.clone(),
            from_cents: self.from_cents,
            increment: self.increment,
            use_vedic: self.use_vedic,
            error_on_invalid: self.error_on_invalid,
        }
    }

    pub fn set_symbol(self, symbol: &str) -> (r: Self)
        ensures
            r@ == (OptsView { symbol: symbol@, ..self@ }),
    {
        let mut r = self;
        r.symbol = symbol.to_owned();
        r
    }

    pub fn set_separator(self, separator: &str) -> (r: Self)
        ensures
            r@ == (OptsView { separator: separator@, ..self@ }),
    {
        let mut r = self;
        r.separator = separator.to_owned();
        r
    }

    /// Sets the decimal-point token: non-empty, with no digit and no `-`.
    pub fn set_decimal(self, decimal: &str) -> (r: Self)
        requires
            valid_token(decimal@),
        ensures
            r@ == (OptsView { decimal: decimal@, ..self@ }),
    {
        let mut r = self;
        r.decimal = decimal.to_owned();
        r
    }

    /// Sets the number of fractional digits kept, from 0 to [`MAX_PRECISION`].
    pub fn set_precision(self, precision: i64) -> (r: Self)
        requires
            0 <= precision <= MAX_PRECISION,
        ensures
            r@ == (OptsView { precision: precision as nat, ..self@ }),
    {
        let mut r = self;
        r.precision = precision as u32;
        r
    }

    pub fn set_pattern(self, pattern: &str) -> (r: Self)
        ensures
            r@ == (OptsView { pattern: pattern@, ..self@ }),
    {
        let mut r = self;
        r.pattern = pattern.to_owned();
        r
    }

    pub fn set_negative_pattern(self, negative_pattern: &str) -> (r: Self)
        ensures
            r@ == (OptsView { negative_pattern: negative_pattern@, ..self@ }),
    {
        let mut r = self;
        r.negative_pattern = negative_pattern.to_owned();
        r
    }

    pub fn set_from_cents(self, from_cents: bool) -> (r: Self)
        ensures
            r@ == (OptsView { from_cents, ..self@ }),
    {
        let mut r = self;
        r.from_cents = from_cents;
        r
    }

    /// Sets the display rounding increment; it must be positive.
    pub fn set_increment(self, increment: Decimal) -> (r: Self)
        requires
            valid_increment(increment),
        ensures
            r@ == (OptsView { increment: Some(increment), ..self@ }),
    {
        let mut r = self;
        r.increment = Some(increment);
        r
    }

    /// Drops the increment, so that display rounds to one smallest unit.
    pub fn set_unset_increment(self) -> (r: Self)
        ensures
            r@ == (OptsView { increment: None, ..self@ }),
    {
        let mut r = self;
        r.increment = None;
        r
    }

    pub fn set_use_vedic(self, use_vedic: bool) -> (r: Self)
        ensures
            r@ == (OptsView { use_vedic, ..self@ }),
    {
        let mut r = self;
        r.use_vedic = use_vedic;
        r
    }

    pub fn set_error_on_invalid(self, error_on_invalid: bool) -> (r: Self)
        ensures
            r@ == (OptsView { error_on_invalid, ..self@ }),
    {
        let mut r = self;
        r.error_on_invalid = error_on_invalid;
        r
    }

    pub fn symbol(&self) -> (r: String)
        ensures
            r@ == self@.symbol,
    {
        self.symbol.clone()
    }

    pub fn separator(&self) -> (r: String)
        ensures
            r@ == self@.separator,
    {
        self.separator.clone()
    }

    pub fn decimal(&self) -> (r: String)
        ensures
            r@ == self@.decimal,
    {
        self.decimal.clone()
    }

    pub fn precision(&self) -> (r: u32)
        ensures
            r == self@.precision,
    {
        self.precision
    }

    pub fn pattern(&self) -> (r: String)
        ensures
            r@ == self@.pattern,
    {
        self.pattern.clone()
    }

    pub fn negative_pattern(&self) -> (r: String)
        ensures
            r@ == self@.negative_pattern,
    {
        self.negative_pattern.clone()
    }

    pub fn from_cents(&self) -> (r: bool)
        ensures
            r == self@.from_cents,
    {
        self.from_cents
    }

    /// The display increment: the one set, or `1 / 10^precision`.
    pub fn increment(&self) -> (r: Decimal)
        ensures
            r == self@.increment_value(),
    {
        match self.increment {
            Some(d) => d,
            None => Decimal { mantissa: 1, scale: self.precision },
        }
    }

    pub fn use_vedic(&self) -> (r: bool)
        ensures
            r == self@.use_vedic,
    {
        self.use_vedic
    }

    pub fn error_on_invalid(&self) -> (r: bool)
        ensures
            r == self@.error_on_invalid,
    {
        self.error_on_invalid
    }
}

} // verus!

//! Numbers of the language: signed decimal fixed-point values with six
//! fractional digits. All arithmetic is exact or truncates toward zero, and
//! every operation reports a result that leaves the representable range.

use vstd::prelude::*;
use vstd::string::*;

verus! {

/// How many units make up the integer one.
pub const SCALE: i64 = 1_000_000;

/// A decimal fixed-point number, held as a count of millionths.
#[derive(Clone, Copy, Debug, PartialEq, Eq, Structural)]
pub struct Number {
    pub micros: i64,
}

/// Whether the integer `v` is a count of millionths that a [`Number`] can hold.
pub open spec fn in_range(v: int) -> bool {
    i64::MIN <= v <= i64::MAX
}

/// The number with `v` millionths, when `v` is in range.
pub open spec fn number_of(v: int) -> Option<Number> {
    if in_range(v) {
        Some(Number { micros: v as i64 })
    } else {
        None
    }
}

/// The number of seconds that `millis` thousandths of a second make up; the
/// greatest number when that is out of range.
pub open spec fn seconds_of(millis: u64) -> Number {
    if millis * 1000 > i64::MAX {
        Number { micros: i64::MAX }
    } else {
        Number { micros: (millis * 1000) as i64 }
    }
}

/// Quotient of `x` by a positive `y`, rounded toward zero.
pub open spec fn quotient_toward_zero(x: int, y: int) -> int
    recommends
        y > 0,
{
    if x >= 0 {
        x / y
    } else {
        -((-x) / y)
    }
}

/// Quotient of `x` millionths by `y` millionths, in millionths, rounded
/// toward zero.
pub open spec fn quotient_of(x: int, y: int) -> int
    recommends
        y != 0,
{
    let q: int = (magnitude(x) * 1_000_000) as int / (magnitude(y) as int);
    if (x < 0) != (y < 0) {
        -q
    } else {
        q
    }
}

/// Magnitude of an integer.
pub open spec fn magnitude(x: int) -> nat {
    if x >= 0 {
        x as nat
    } else {
        (-x) as nat
    }
}

/// The character that stands for the decimal digit `d`.
pub open spec fn digit_char(d: nat) -> char {
    if d == 0 {
        '0'
    } else if d == 1 {
        '1'
    } else if d == 2 {
        '2'
    } else if d == 3 {
        '3'
    } else if d == 4 {
        '4'
    } else if d == 5 {
        '5'
    } else if d == 6 {
        '6'
    } else if d == 7 {
        '7'
    } else if d == 8 {
        '8'
    } else {
        '9'
    }
}

/// Decimal digits of `n`, most significant first, without leading zeros.
pub open spec fn decimal(n: nat) -> Seq<char>
    decreases n,
{
    if n < 10 {
        seq![digit_char(n)]
    } else {
        decimal(n / 10).push(digit_char(n % 10))
    }
}

/// The lowest `width` decimal digits of `f`, most significant first.
pub open spec fn padded(f: nat, width: nat) -> Seq<char>
    decreases width,
{
    if width == 0 {
        Seq::empty()
    } else {
        padded(f / 10, (width - 1) as nat).push(digit_char(f % 10))
    }
}

/// The digits of a fraction of `width` places whose numerator is `f`,
/// without trailing zeros.
pub open spec fn fraction(f: nat, width: nat) -> Seq<char>
    decreases width,
{
    if width == 0 || f == 0 {
        Seq::empty()
    } else if f % 10 == 0 {
        fraction(f / 10, (width - 1) as nat)
    } else {
        padded(f, width)
    }
}

/// Text of the number with `micros` millionths: an optional minus sign, the
/// integer part, and the fractional part behind a point when it is not zero.
pub open spec fn number_text(micros: int) -> Seq<char> {
    let m = magnitude(micros);
    let sign = if micros < 0 {
        seq!['-']
    } else {
        Seq::empty()
    };
    let whole = decimal(m / 1_000_000);
    let part = m % 1_000_000;
    if part == 0 {
        sign + whole
    } else {
        sign + whole + seq!['.'] + fraction(part, 6)
    }
}

/// The literal that holds the digit `d`.
fn digit_text(d: u8) -> (r: &'static str)
    requires
        d < 10,
    ensures
        r@ == seq![digit_char(d as nat)],
{
    proof {
        reveal_strlit("0");
        reveal_strlit("1");
        reveal_strlit("2");
        reveal_strlit("3");
        reveal_strlit("4");
        reveal_strlit("5");
        reveal_strlit("6");
        reveal_strlit("7");
        reveal_strlit("8");
        reveal_strlit("9");
    }
    let r = if d == 0 {
        "0"
    } else if d == 1 {
        "1"
    } else if d == 2 {
        "2"
    } else if d == 3 {
        "3"
    } else if d == 4 {
        "4"
    } else if d == 5 {
        "5"
    } else if d == 6 {
        "6"
    } else if d == 7 {
        "7"
    } else if d == 8 {
        "8"
    } else {
        "9"
    };
    assert(r@ =~= seq![digit_char(d as nat)]);
    r
}

/// Appends the decimal digits of `n` to `out`.
pub fn push_decimal(out: &mut String, n: u64)
    ensures
        final(out)@ == old(out)@ + decimal(n as nat),
    decreases n,
{
    if n >= 10 {
        push_decimal(out, n / 10);
    }
    let d = (n % 10) as u8;
    out.append(digit_text(d));
    assert(out@ =~= old(out)@ + decimal(n as nat));
}

/// Appends the lowest `width` decimal digits of `f` to `out`.
fn push_padded(out: &mut String, f: u64, width: usize)
    ensures
        final(out)@ == old(out)@ + padded(f as nat, width as nat),
    decreases width,
{
    if width > 0 {
        push_padded(out, f / 10, width - 1);
        let d = (f % 10) as u8;
        out.append(digit_text(d));
    }
    assert(out@ =~= old(out)@ + padded(f as nat, width as nat));
}

/// Appends the digits of the fraction `f` of `width` places to `out`,
/// leaving out trailing zeros.
fn push_fraction(out: &mut String, f: u64, width: usize)
    ensures
        final(out)@ == old(out)@ + fraction(f as nat, width as nat),
    decreases width,
{
    if width == 0 || f == 0 {
        assert(out@ =~= old(out)@ + fraction(f as nat, width as nat));
    } else if f % 10 == 0 {
        push_fraction(out, f / 10, width - 1);
    } else {
        push_padded(out, f, width);
    }
}

impl Number {
    /// The number zero.
    pub fn zero() -> (r: Number)
        ensures
            r.micros == 0,
    {
        Number { micros: 0 }
    }

    /// The number with the given count of millionths.
    pub fn from_micros(micros: i64) -> (r: Number)
        ensures
            r.micros == micros,
    {
        Number { micros }
    }

    /// The whole number `n`, unless it is out of range.
    pub fn from_integer(n: i64) -> (r: Option<Number>)
        ensures
            r == number_of(n * SCALE),
    {
        let wide: i128 = (n as i128) * 1_000_000;
        Self::narrow(wide)
    }

    /// The number of seconds that `millis` thousandths of a second make up;
    /// the greatest number when that is out of range.
    pub fn from_millis(millis: u64) -> (r: Number)
        ensures
            r == seconds_of(millis),
    {
        if millis > 9_223_372_036_854_775 {
            Number { micros: i64::MAX }
        } else {
            Number { micros: (millis * 1000) as i64 }
        }
    }

    /// The count of millionths.
    pub fn micros(&self) -> (r: i64)
        ensures
            r == self.micros,
    {
        self.micros
    }

    /// Brings a wide intermediate result back into range.
    fn narrow(wide: i128) -> (r: Option<Number>)
        ensures
            r == number_of(wide as int),
    {
        if wide < i64::MIN as i128 || wide > i64::MAX as i128 {
            None
        } else {
            Some(Number { micros: wide as i64 })
        }
    }

    /// Magnitude of the count of millionths.
    fn abs_micros(&self) -> (r: u64)
        ensures
            r == magnitude(self.micros as int),
    {
        if self.micros >= 0 {
            self.micros as u64
        } else {
            let wide: i128 = -(self.micros as i128);
            wide as u64
        }
    }

    /// Sum of two numbers; `None` when it is out of range.
    pub fn plus(self, other: Number) -> (r: Option<Number>)
        ensures
            r == number_of(self.micros + other.micros),
    {
        Self::narrow(self.micros as i128 + other.micros as i128)
    }

    /// Difference of two numbers; `None` when it is out of range.
    pub fn minus(self, other: Number) -> (r: Option<Number>)
        ensures
            r == number_of(self.micros - other.micros),
    {
        Self::narrow(self.micros as i128 - other.micros as i128)
    }

    /// The number with the opposite sign; `None` when it is out of range.
    pub fn negated(self) -> (r: Option<Number>)
        ensures
            r == number_of(-self.micros),
    {
        Self::narrow(-(self.micros as i128))
    }

    /// Product of two numbers, rounded toward zero; `None` when it is out of
    /// range.
    pub fn times(self, other: Number) -> (r: Option<Number>)
        ensures
            r == number_of(quotient_toward_zero(self.micros * other.micros, SCALE as int)),
    {
        let a: u128 = self.abs_micros() as u128;
        let b: u128 = other.abs_micros() as u128;
        assert(a * b <= 0x8000_0000_0000_0000 * 0x8000_0000_0000_0000) by (nonlinear_arith)
            requires
                a <= 0x8000_0000_0000_0000,
                b <= 0x8000_0000_0000_0000,
        ;
        let product: u128 = a * b;
        let q: u128 = product / 1_000_000;
        let negative = (self.micros < 0) != (other.micros < 0);
        proof {
            let x = self.micros as int;
            let y = other.micros as int;
            assert(magnitude(x * y) == magnitude(x) * magnitude(y)) by (nonlinear_arith);
            assert(negative ==> x * y <= 0) by (nonlinear_arith)
                requires
                    negative == ((x < 0) != (y < 0)),
            ;
            assert(!negative ==> x * y >= 0) by (nonlinear_arith)
                requires
                    negative == ((x < 0) != (y < 0)),
            ;
        }
        if q > 0x8000_0000_0000_0000 {
            None
        } else if negative {
            Self::narrow(-(q as i128))
        } else {
            Self::narrow(q as i128)
        }
    }

    /// Quotient of two numbers, rounded toward zero; `None` when the divisor
    /// is zero or the quotient is out of range.
    pub fn over(self, other: Number) -> (r: Option<Number>)
        ensures
            other.micros == 0 ==> r is None,
            other.micros != 0 ==> r == number_of(
                quotient_of(self.micros as int, other.micros as int),
            ),
    {
        if other.micros == 0 {
            return None;
        }
        let a: u128 = self.abs_micros() as u128;
        let b: u128 = other.abs_micros() as u128;
        let q: u128 = (a * 1_000_000) / b;
        let negative = (self.micros < 0) != (other.micros < 0);
        if q > 0x8000_0000_0000_0000 {
            None
        } else if negative {
            Self::narrow(-(q as i128))
        } else {
            Self::narrow(q as i128)
        }
    }

    /// Whether `self` is less than `other`.
    pub fn less_than(self, other: Number) -> (r: bool)
        ensures
            r == (self.micros < other.micros),
    {
        self.micros < other.micros
    }

    /// The decimal text of the number.
    pub fn to_string(&self) -> (r: String)
        ensures
            r@ == number_text(self.micros as int),
    {
        let m = self.abs_micros();
        let mut out = String::new();
        if self.micros < 0 {
            proof {
                reveal_strlit("-");
            }
            out.append("-");
        }
        push_decimal(&mut out, m / 1_000_000);
        let part = m % 1_000_000;
        if part != 0 {
            proof {
                reveal_strlit(".");
            }
            out.append(".");
            push_fraction(&mut out, part, 6);
        }
        assert(out@ =~= number_text(self.micros as int));
        out
    }
}

} // verus!

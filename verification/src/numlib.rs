//! Integer arithmetic of the interpreter and the `র‍্যান্ডম` module's
//! generator.
//!
//! Kolom integers are `i64`. Arithmetic on two integers either gives the
//! exact result or an error: overflow is reported, never wrapped, and
//! division and remainder truncate toward zero as Rust's do.

use vstd::prelude::*;

verus! {

/// An arithmetic operator on two integers.
#[derive(Debug, Clone, Copy, PartialEq, Eq, Structural)]
pub enum ArithOp {
    Add,
    Sub,
    Mul,
    Div,
    Mod,
}

/// Why integer arithmetic gave no result.
#[derive(Debug, Clone, Copy, PartialEq, Eq, Structural)]
pub enum ArithError {
    /// The exact result does not fit in an `i64`.
    Overflow,
    /// Division by zero.
    DivByZero,
    /// Remainder by zero.
    ModByZero,
}

impl ArithError {
    pub open spec fn message_v(self) -> Seq<char> {
        match self {
            ArithError::Overflow => crate::messages::INT_OVERFLOW@,
            ArithError::DivByZero => crate::messages::DIV_BY_ZERO@,
            ArithError::ModByZero => crate::messages::MOD_BY_ZERO@,
        }
    }

    /// The message shown to the programmer.
    pub fn message(&self) -> (s: &'static str)
        ensures
            s@ == self.message_v(),
    {
        match self {
            ArithError::Overflow => crate::messages::INT_OVERFLOW,
            ArithError::DivByZero => crate::messages::DIV_BY_ZERO,
            ArithError::ModByZero => crate::messages::MOD_BY_ZERO,
        }
    }
}

/// Division truncating toward zero.
pub open spec fn trunc_div(x: int, d: int) -> int {
    if x == 0 {
        0
    } else if x > 0 && d > 0 {
        x / d
    } else if x < 0 && d < 0 {
        (-x) / (-d)
    } else if x < 0 {
        -((-x) / d)
    } else {
        -(x / (-d))
    }
}

/// The remainder of [`trunc_div`]: it takes the sign of `x`.
pub open spec fn trunc_rem(x: int, d: int) -> int {
    if x == 0 {
        0
    } else if x > 0 && d > 0 {
        x % d
    } else if x < 0 && d < 0 {
        -((-x) % (-d))
    } else if x < 0 {
        -((-x) % d)
    } else {
        x % (-d)
    }
}

/// The exact result of `a op b`, when there is one.
pub open spec fn exact(op: ArithOp, a: int, b: int) -> int {
    match op {
        ArithOp::Add => a + b,
        ArithOp::Sub => a - b,
        ArithOp::Mul => a * b,
        ArithOp::Div => trunc_div(a, b),
        ArithOp::Mod => trunc_rem(a, b),
    }
}

/// What integer arithmetic gives: division and remainder by zero are
/// refused, `i64::MIN % -1` is an overflow (its quotient does not fit),
/// and every other exact result is returned when it fits.
pub open spec fn arith_result(op: ArithOp, a: i64, b: i64) -> Result<i64, ArithError> {
    if op == ArithOp::Div && b == 0 {
        Err(ArithError::DivByZero)
    } else if op == ArithOp::Mod && b == 0 {
        Err(ArithError::ModByZero)
    } else if op == ArithOp::Mod && a == i64::MIN && b == -1 {
        Err(ArithError::Overflow)
    } else if exact(op, a as int, b as int) < i64::MIN || exact(op, a as int, b as int) > i64::MAX {
        Err(ArithError::Overflow)
    } else {
        Ok(exact(op, a as int, b as int) as i64)
    }
}

/// `a op b` on two integers: the exact result, or why there is none.
pub fn int_arith(op: ArithOp, a: i64, b: i64) -> (r: Result<i64, ArithError>)
    ensures
        r == arith_result(op, a, b),
{
    let c = match op {
        ArithOp::Add => a.checked_add(b),
        ArithOp::Sub => a.checked_sub(b),
        ArithOp::Mul => a.checked_mul(b),
        ArithOp::Div => {
            if b == 0 {
                return Err(ArithError::DivByZero);
            }
            a.checked_div(b)
        },
        ArithOp::Mod => {
            if b == 0 {
                return Err(ArithError::ModByZero);
            }
            if a == i64::MIN && b == -1 {
                return Err(ArithError::Overflow);
            }
            a.checked_rem(b)
        },
    };
    match c {
        Some(v) => Ok(v),
        None => Err(ArithError::Overflow),
    }
}

/// `গণিত.পরম_মান` on an integer. `i64::MIN` has no absolute value in
/// an `i64`, so it is left out.
pub fn int_abs(x: i64) -> (r: i64)
    requires
        x != i64::MIN,
    ensures
        r == (if x < 0 { -x } else { x as int }),
{
    if x < 0 {
        -x
    } else {
        x
    }
}

/// `গণিত.সর্বনিম্ন` on two integers.
pub fn int_min(a: i64, b: i64) -> (r: i64)
    ensures
        r == (if a <= b { a } else { b }),
{
    if a <= b {
        a
    } else {
        b
    }
}

/// `গণিত.সর্বোচ্চ` on two integers.
pub fn int_max(a: i64, b: i64) -> (r: i64)
    ensures
        r == (if a >= b { a } else { b }),
{
    if a >= b {
        a
    } else {
        b
    }
}

// ---------------------------------------------------------------------------
// The random number generator
// ---------------------------------------------------------------------------

/// Mixed into every seed.
pub const SEED_MIX: u64 = 0x2545F4914F6CDD1D;

/// The seed used when the clock cannot be read.
pub const FALLBACK_SEED: u64 = 0x9E3779B97F4A7C15;

pub const LCG_MUL: u64 = 6364136223846793005;

pub const LCG_ADD: u64 = 1442695040888963407;

/// One step of the generator: multiply and add, modulo 2^64.
pub open spec fn lcg_step(s: u64) -> u64 {
    ((s as int * LCG_MUL as int + LCG_ADD as int) % 0x1_0000_0000_0000_0000) as u64
}

/// `মধ্যে` was given a lower bound above its upper bound.
#[derive(Debug, Clone, Copy, PartialEq, Eq, Structural)]
pub struct RangeInverted;

impl RangeInverted {
    /// The message shown to the programmer.
    pub fn message(&self) -> (s: &'static str)
        ensures
            s@ == crate::messages::RANGE_INVERTED@,
    {
        crate::messages::RANGE_INVERTED
    }
}

/// A linear congruential generator; each draw is the top 31 bits of the
/// next state.
pub struct Rng {
    pub state: u64,
}

impl Rng {
    /// The generator a program starts with: the clock's milliseconds since
    /// the epoch, or a fixed value when the clock is unreadable, mixed
    /// with [`SEED_MIX`].
    pub fn from_clock(ms: Option<u64>) -> (g: Rng)
        ensures
            g.state == SEED_MIX ^ (match ms {
                Some(m) => m,
                None => FALLBACK_SEED,
            }),
    {
        let m = match ms {
            Some(m) => m,
            None => FALLBACK_SEED,
        };
        Rng { state: SEED_MIX ^ m }
    }

    /// `বীজ`: restarts the sequence from a seed.
    pub fn seed(&mut self, s: i64)
        ensures
            final(self).state == (s as u64) ^ SEED_MIX,
    {
        self.state = (s as u64) ^ SEED_MIX;
    }

    /// `সংখ্যা`: the next draw.
    pub fn next(&mut self) -> (r: u64)
        ensures
            final(self).state == lcg_step(old(self).state),
            r == lcg_step(old(self).state) >> 33,
            r < 0x8000_0000,
    {
        let m = self.state.wrapping_mul(LCG_MUL);
        let s = m.wrapping_add(LCG_ADD);
        assert(s == lcg_step(self.state)) by (nonlinear_arith)
            requires
                m == (self.state as int * LCG_MUL as int) % 0x1_0000_0000_0000_0000,
                s == (if m + LCG_ADD > u64::MAX { m + LCG_ADD - 0x1_0000_0000_0000_0000 } else { m + LCG_ADD }),
        ;
        self.state = s;
        assert(s >> 33 < 0x8000_0000) by (bit_vector);
        s >> 33
    }

    /// `মধ্যে`: a draw between `lo` and `hi`, both included; refused when
    /// `lo > hi`. The whole `i64` range would be a span of 2^64 draws,
    /// which the generator cannot express, so it is left out.
    pub fn between(&mut self, lo: i64, hi: i64) -> (r: Result<i64, RangeInverted>)
        requires
            !(lo == i64::MIN && hi == i64::MAX),
        ensures
            lo > hi ==> r is Err && final(self).state == old(self).state,
            lo <= hi ==> r == Ok::<i64, RangeInverted>(
                (lo + (lcg_step(old(self).state) >> 33) as int % (hi - lo + 1)) as i64,
            ) && final(self).state == lcg_step(old(self).state),
            r matches Ok(v) ==> lo <= v <= hi,
    {
        if lo > hi {
            return Err(RangeInverted);
        }
        assert(hi as int - lo as int + 1 <= u64::MAX);
        let span = (hi as i128 - lo as i128 + 1) as u64;
        assert(span as int == hi - lo + 1);
        let d = self.next();
        let k = d % span;
        assert(k < span && k <= d) by (nonlinear_arith)
            requires
                k == d % span,
                span > 0,
        ;
        Ok(lo + k as i64)
    }

    /// `দশমিক`: the next draw as millionths, the numerator of a fraction
    /// in `[0, 1)` over one million.
    pub fn next_millionths(&mut self) -> (r: u64)
        ensures
            final(self).state == lcg_step(old(self).state),
            r == (lcg_step(old(self).state) >> 33) % 1_000_000,
            r < 1_000_000,
    {
        let d = self.next();
        d % 1_000_000
    }
}

} // verus!

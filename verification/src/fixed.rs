//! Fixed-point numbers with six decimal places, the scalar type behind every
//! fractional quantity in the engine: color channels on the 0..1 scale,
//! seconds of elapsed time, and tick frequencies in hertz.

use vstd::prelude::*;

verus! {

/// Number of raw units per whole unit: `Fx` stores millionths.
pub const FX_SCALE: i64 = 1_000_000;

/// A fractional quantity stored as a count of millionths.
#[derive(Clone, Copy, Debug, PartialEq, Eq, Structural)]
pub struct Fx {
    raw: i64,
}

impl View for Fx {
    type V = int;

    closed spec fn view(&self) -> int {
        self.raw as int
    }
}

/// Mathematical value of one whole unit in raw counts.
pub open spec fn fx_scale() -> int {
    FX_SCALE as int
}

/// Spec-level constructor: the value whose raw count is `m`. Contracts use it
/// where a fixed-point number is needed as a mathematical object.
pub closed spec fn spec_fx(m: int) -> Fx {
    Fx { raw: m as i64 }
}

/// Ties `spec_fx` to the view: in the representable range the raw count reads
/// back unchanged.
pub broadcast proof fn lemma_spec_fx_view(m: int)
    requires
        i64::MIN <= m <= i64::MAX,
    ensures
        (#[trigger] spec_fx(m))@ == m,
{
}

/// What `from_int` yields: the integer scaled up, saturated to the `i64` range.
pub open spec fn fx_of_int(v: int) -> int {
    if v * fx_scale() > i64::MAX as int {
        i64::MAX as int
    } else if v * fx_scale() < i64::MIN as int {
        i64::MIN as int
    } else {
        v * fx_scale()
    }
}

/// What `trunc` yields: the whole part, rounded toward zero.
pub open spec fn fx_trunc(raw: int) -> int {
    if raw >= 0 {
        raw / fx_scale()
    } else {
        -((-raw) / fx_scale())
    }
}

/// What `to_byte_255` yields: the 0..1 scale mapped onto a protocol byte,
/// truncated and clamped into 0..=255.
pub open spec fn fx_to_byte_255(raw: int) -> u8 {
    if raw <= 0 {
        0u8
    } else if raw * 255 / fx_scale() >= 255 {
        255u8
    } else {
        (raw * 255 / fx_scale()) as u8
    }
}

impl Fx {
    /// Exact constructor from a count of millionths.
    pub fn from_micros(m: i64) -> (r: Fx)
        ensures
            r@ == m as int,
            r == spec_fx(m as int),
    {
        Fx { raw: m }
    }

    /// The raw count of millionths.
    pub fn micros(&self) -> (r: i64)
        ensures
            r as int == self@,
    {
        self.raw
    }

    /// Zero.
    pub fn zero() -> (r: Fx)
        ensures
            r@ == 0,
            r == spec_fx(0),
    {
        Fx { raw: 0 }
    }

    /// One whole unit.
    pub fn one() -> (r: Fx)
        ensures
            r@ == fx_scale(),
            r == spec_fx(fx_scale()),
    {
        Fx { raw: FX_SCALE }
    }

    /// A whole integer scaled up, saturating at the representable range.
    pub fn from_int(v: i64) -> (r: Fx)
        ensures
            r@ == fx_of_int(v as int),
    {
        proof {
            assert((v as int) * (FX_SCALE as int) < (i128::MAX as int)
                && (i128::MIN as int) < (v as int) * (FX_SCALE as int)) by (nonlinear_arith)
                requires
                    i64::MIN as int <= v as int <= i64::MAX as int;
        }
        let wide: i128 = (v as i128) * (FX_SCALE as i128);
        if wide > i64::MAX as i128 {
            Fx { raw: i64::MAX }
        } else if wide < i64::MIN as i128 {
            Fx { raw: i64::MIN }
        } else {
            Fx { raw: wide as i64 }
        }
    }

    /// The whole part, rounded toward zero.
    pub fn trunc(&self) -> (r: i64)
        ensures
            r as int == fx_trunc(self@),
    {
        if self.raw >= 0 {
            let q: u64 = (self.raw as u64) / (FX_SCALE as u64);
            q as i64
        } else {
            let neg: i128 = -(self.raw as i128);
            let q: u128 = (neg as u128) / (FX_SCALE as u128);
            -(q as i128) as i64
        }
    }

    /// The 0..1 scale mapped onto a byte: multiplied by 255, truncated,
    /// clamped into 0..=255.
    pub fn to_byte_255(&self) -> (r: u8)
        ensures
            r == fx_to_byte_255(self@),
    {
        if self.raw <= 0 {
            0
        } else {
            let wide: u128 = (self.raw as u128) * 255;
            let q: u128 = wide / (FX_SCALE as u128);
            if q >= 255 {
                255
            } else {
                q as u8
            }
        }
    }

    /// True when this value is at most `other`.
    pub fn le(&self, other: &Fx) -> (r: bool)
        ensures
            r == (self@ <= other@),
    {
        self.raw <= other.raw
    }

    /// True when this value is strictly positive.
    pub fn is_positive(&self) -> (r: bool)
        ensures
            r == (self@ > 0),
    {
        self.raw > 0
    }
}

} // verus!

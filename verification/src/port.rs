//! Typed values and kinds flowing through graph ports: scalars, vectors and
//! colors, each carrying its own bounds. Two kinds are connection-compatible
//! only when tags and bounds agree exactly. Conversion accessors coerce
//! best-effort; strict accessors demand the exact declared bounds.

use vstd::prelude::*;
use crate::color::{Rgba, byte_to_unit, unit_of_byte};
use crate::error::EvaluationError;
use crate::fixed::{Fx, fx_of_int, fx_scale, fx_to_byte_255, fx_trunc};

verus! {

/// Inclusive bounds of a fractional scalar or vector element.
#[derive(Debug, Clone, Copy, PartialEq, Eq, Structural)]
pub struct FRange {
    pub min: Fx,
    pub max: Fx,
}

/// Inclusive bounds of an integer scalar or vector element.
#[derive(Debug, Clone, Copy, PartialEq, Eq, Structural)]
pub struct IRange {
    pub min: i64,
    pub max: i64,
}

/// The kind of a port: a tag plus the exact bounds it declares.
#[derive(Debug, Clone, Copy, PartialEq, Eq, Structural)]
pub enum GType {
    FNum(FRange),
    INum(IRange),
    Color,
    FVec(FRange),
    IVec(IRange),
}

impl GType {
    /// Connection compatibility: tags match and bounds match exactly; no
    /// implicit widening.
    pub fn is_equal_to(&self, other: &Self) -> (r: bool)
        ensures
            r == (*self == *other),
    {
        *self == *other
    }
}

/// A value with the bounds it was declared under.
#[derive(Debug, Clone, PartialEq)]
pub enum GVal {
    FNum(Fx, FRange),
    INum(i64, IRange),
    Color(Rgba),
    FVec(Vec<Fx>, FRange),
    IVec(Vec<i64>, IRange),
}

/// The kind a value carries.
pub open spec fn spec_gtype_of(v: GVal) -> GType {
    match v {
        GVal::FNum(_, r) => GType::FNum(r),
        GVal::INum(_, r) => GType::INum(r),
        GVal::Color(_) => GType::Color,
        GVal::FVec(_, r) => GType::FVec(r),
        GVal::IVec(_, r) => GType::IVec(r),
    }
}

/// Reads the kind off a value.
pub fn gtype_of(v: &GVal) -> (r: GType)
    ensures
        r == spec_gtype_of(*v),
{
    match v {
        GVal::FNum(_, r) => GType::FNum(*r),
        GVal::INum(_, r) => GType::INum(*r),
        GVal::Color(_) => GType::Color,
        GVal::FVec(_, r) => GType::FVec(*r),
        GVal::IVec(_, r) => GType::IVec(*r),
    }
}

/// The value a kind defaults to: zero or empty, under the declared bounds.
pub fn default_gval(t: &GType) -> (r: GVal)
    ensures
        spec_gtype_of(r) == *t,
        t is FNum ==> r is FNum && r->FNum_0@ == 0,
        t is INum ==> r is INum && r->INum_0 == 0,
        t is Color ==> r is Color && r->Color_0.r@ == 0 && r->Color_0.g@ == 0 && r->Color_0.b@
            == 0 && r->Color_0.a@ == fx_scale(),
        t is FVec ==> r is FVec && r->FVec_0@.len() == 0,
        t is IVec ==> r is IVec && r->IVec_0@.len() == 0,
{
    match t {
        GType::FNum(r) => GVal::FNum(Fx::zero(), *r),
        GType::INum(r) => GVal::INum(0, *r),
        GType::Color => GVal::Color(Rgba::black()),
        GType::FVec(r) => GVal::FVec(Vec::new(), *r),
        GType::IVec(r) => GVal::IVec(Vec::new(), *r),
    }
}

/// Clamps an integer into a protocol byte.
pub open spec fn int_to_byte(n: int) -> u8 {
    if n < 0 {
        0u8
    } else if n > 255 {
        255u8
    } else {
        n as u8
    }
}

/// Clamps and truncates, exec side.
pub fn to_byte(n: i64) -> (r: u8)
    ensures
        r == int_to_byte(n as int),
{
    if n < 0 {
        0
    } else if n > 255 {
        255
    } else {
        n as u8
    }
}

/// The four channel views (r, g, b, a) of the color any value coerces to:
/// scalars paint a gray, vectors fill channels in order (missing color
/// channels default to 0, missing alpha to full), integers read as bytes.
pub open spec fn spec_as_color(v: GVal) -> (int, int, int, int) {
    match v {
        GVal::FNum(n, _) => (n@, n@, n@, fx_scale()),
        GVal::INum(n, _) => {
            let c = byte_to_unit(int_to_byte(n as int));
            (c, c, c, fx_scale())
        },
        GVal::Color(c) => (c.r@, c.g@, c.b@, c.a@),
        GVal::FVec(v, _) => (
            if v@.len() > 0 {
                v@[0]@
            } else {
                0
            },
            if v@.len() > 1 {
                v@[1]@
            } else {
                0
            },
            if v@.len() > 2 {
                v@[2]@
            } else {
                0
            },
            if v@.len() > 3 {
                v@[3]@
            } else {
                fx_scale()
            },
        ),
        GVal::IVec(w, _) => (
            byte_to_unit(
                int_to_byte(
                    if w@.len() > 0 {
                        w@[0] as int
                    } else {
                        0
                    },
                ),
            ),
            byte_to_unit(
                int_to_byte(
                    if w@.len() > 1 {
                        w@[1] as int
                    } else {
                        0
                    },
                ),
            ),
            byte_to_unit(
                int_to_byte(
                    if w@.len() > 2 {
                        w@[2] as int
                    } else {
                        0
                    },
                ),
            ),
            byte_to_unit(
                int_to_byte(
                    if w@.len() > 3 {
                        w@[3] as int
                    } else {
                        255
                    },
                ),
            ),
        ),
    }
}

/// The element views of the fractional vector any value coerces to.
pub open spec fn spec_as_fvec(v: GVal) -> Seq<int> {
    match v {
        GVal::FNum(n, _) => seq![n@],
        GVal::INum(n, _) => seq![fx_of_int(n as int)],
        GVal::Color(c) => seq![c.r@, c.g@, c.b@, c.a@],
        GVal::FVec(v, _) => v@.map_values(|x: Fx| x@),
        GVal::IVec(w, _) => w@.map_values(|x: i64| fx_of_int(x as int)),
    }
}

/// The elements of the integer vector any value coerces to: fractions are
/// truncated, color channels become clamped bytes.
pub open spec fn spec_as_ivec(v: GVal) -> Seq<int> {
    match v {
        GVal::FNum(n, _) => seq![fx_trunc(n@)],
        GVal::INum(n, _) => seq![n as int],
        GVal::Color(c) => seq![
            fx_to_byte_255(c.r@) as int,
            fx_to_byte_255(c.g@) as int,
            fx_to_byte_255(c.b@) as int,
            fx_to_byte_255(c.a@) as int,
        ],
        GVal::FVec(v, _) => v@.map_values(|x: Fx| fx_trunc(x@)),
        GVal::IVec(w, _) => w@.map_values(|x: i64| x as int),
    }
}

/// Equality of values up to vector contents: scalars, colors and bounds are
/// compared as values, vectors by the elements they hold. This is the
/// relation a copy of a value preserves.
pub open spec fn gval_eqv(a: GVal, b: GVal) -> bool {
    match (a, b) {
        (GVal::FVec(va, ra), GVal::FVec(vb, rb)) => va@ == vb@ && ra == rb,
        (GVal::IVec(wa, ra), GVal::IVec(wb, rb)) => wa@ == wb@ && ra == rb,
        _ => a == b,
    }
}

/// `gval_eqv`, element for element.
pub open spec fn gvals_eqv(a: Seq<GVal>, b: Seq<GVal>) -> bool {
    a.len() == b.len() && forall|i: int| 0 <= i < a.len() ==> gval_eqv(#[trigger] a[i], b[i])
}

/// Equivalent values carry the same kind.
pub proof fn lemma_gval_eqv_kind(a: GVal, b: GVal)
    requires
        gval_eqv(a, b),
    ensures
        spec_gtype_of(a) == spec_gtype_of(b),
{
}

/// Copies a fixed-point vector, element for element.
pub fn copy_fx_vec(v: &Vec<Fx>) -> (r: Vec<Fx>)
    ensures
        r@ == v@,
{
    let mut out: Vec<Fx> = Vec::new();
    let n = v.len();
    let mut i: usize = 0;
    while i < n
        invariant
            n == v@.len(),
            i <= n,
            out@ == v@.take(i as int),
        decreases n - i,
    {
        out.push(v[i]);
        proof {
            assert(out@ =~= v@.take(i as int + 1));
        }
        i += 1;
    }
    proof {
        assert(v@.take(n as int) =~= v@);
    }
    out
}

/// Copies an integer vector, element for element.
pub fn copy_i64_vec(v: &Vec<i64>) -> (r: Vec<i64>)
    ensures
        r@ == v@,
{
    let mut out: Vec<i64> = Vec::new();
    let n = v.len();
    let mut i: usize = 0;
    while i < n
        invariant
            n == v@.len(),
            i <= n,
            out@ == v@.take(i as int),
        decreases n - i,
    {
        out.push(v[i]);
        proof {
            assert(out@ =~= v@.take(i as int + 1));
        }
        i += 1;
    }
    proof {
        assert(v@.take(n as int) =~= v@);
    }
    out
}

impl GVal {
    /// A copy, equal up to vector contents.
    pub fn duplicate(&self) -> (r: GVal)
        ensures
            gval_eqv(r, *self),
    {
        match self {
            GVal::FNum(n, b) => GVal::FNum(*n, *b),
            GVal::INum(n, b) => GVal::INum(*n, *b),
            GVal::Color(c) => GVal::Color(*c),
            GVal::FVec(v, b) => GVal::FVec(copy_fx_vec(v), *b),
            GVal::IVec(w, b) => GVal::IVec(copy_i64_vec(w), *b),
        }
    }

    /// Coerces to a color; every value has one.
    pub fn as_color(self) -> (r: Result<Rgba, EvaluationError>)
        ensures
            r is Ok,
            ({
                let c = r->Ok_0;
                (c.r@, c.g@, c.b@, c.a@) == spec_as_color(self)
            }),
    {
        match self {
            GVal::FNum(n, _) => Ok(Rgba::gray(n)),
            GVal::INum(n, _) => Ok(Rgba::gray_byte(to_byte(n))),
            GVal::Color(c) => Ok(c),
            GVal::FVec(v, _) => {
                let r = if v.len() > 0 { v[0] } else { Fx::zero() };
                let g = if v.len() > 1 { v[1] } else { Fx::zero() };
                let b = if v.len() > 2 { v[2] } else { Fx::zero() };
                let a = if v.len() > 3 { v[3] } else { Fx::one() };
                Ok(Rgba { r, g, b, a })
            },
            GVal::IVec(w, _) => {
                let r = if w.len() > 0 { to_byte(w[0]) } else { 0 };
                let g = if w.len() > 1 { to_byte(w[1]) } else { 0 };
                let b = if w.len() > 2 { to_byte(w[2]) } else { 0 };
                let a = if w.len() > 3 { to_byte(w[3]) } else { 255 };
                Ok(Rgba::from_bytes([r, g, b, a]))
            },
        }
    }

    /// Coerces to a fractional scalar: the first element of a vector, a
    /// saturating conversion of an integer. A color has none.
    pub fn as_fnum(self) -> (r: Result<Fx, EvaluationError>)
        requires
            self is FVec ==> self->FVec_0@.len() > 0,
            self is IVec ==> self->IVec_0@.len() > 0,
        ensures
            r is Ok <==> !(self is Color),
            r is Ok ==> r->Ok_0@ == spec_as_fvec(self)[0],
            r is Err ==> r->Err_0 == EvaluationError::TypeMismatch,
    {
        match self {
            GVal::FNum(n, _) => Ok(n),
            GVal::INum(n, _) => Ok(Fx::from_int(n)),
            GVal::Color(_) => Err(EvaluationError::TypeMismatch),
            GVal::FVec(v, _) => Ok(v[0]),
            GVal::IVec(w, _) => Ok(Fx::from_int(w[0])),
        }
    }

    /// Coerces to an integer scalar: the first element of a vector, the
    /// truncated whole part of a fraction. A color has none.
    pub fn as_inum(self) -> (r: Result<i64, EvaluationError>)
        requires
            self is FVec ==> self->FVec_0@.len() > 0,
            self is IVec ==> self->IVec_0@.len() > 0,
        ensures
            r is Ok <==> !(self is Color),
            r is Ok ==> r->Ok_0 as int == spec_as_ivec(self)[0],
            r is Err ==> r->Err_0 == EvaluationError::TypeMismatch,
    {
        match self {
            GVal::FNum(n, _) => Ok(n.trunc()),
            GVal::INum(n, _) => Ok(n),
            GVal::Color(_) => Err(EvaluationError::TypeMismatch),
            GVal::FVec(v, _) => Ok(v[0].trunc()),
            GVal::IVec(w, _) => Ok(w[0]),
        }
    }

    /// Coerces to a fractional vector; every value has one.
    pub fn as_fvec(self) -> (r: Result<Vec<Fx>, EvaluationError>)
        ensures
            r is Ok,
            r->Ok_0@.len() == spec_as_fvec(self).len(),
            forall|j: int|
                0 <= j < spec_as_fvec(self).len() ==> r->Ok_0@[j]@ == spec_as_fvec(self)[j],
    {
        match self {
            GVal::FNum(n, _) => {
                let mut out: Vec<Fx> = Vec::new();
                out.push(n);
                Ok(out)
            },
            GVal::INum(n, _) => {
                let mut out: Vec<Fx> = Vec::new();
                out.push(Fx::from_int(n));
                Ok(out)
            },
            GVal::Color(c) => {
                let mut out: Vec<Fx> = Vec::new();
                out.push(c.r);
                out.push(c.g);
                out.push(c.b);
                out.push(c.a);
                Ok(out)
            },
            GVal::FVec(v, _) => Ok(v),
            GVal::IVec(w, _) => {
                let mut out: Vec<Fx> = Vec::new();
                let n = w.len();
                let mut i: usize = 0;
                while i < n
                    invariant
                        n == w@.len(),
                        i <= n,
                        out@.len() == i,
                        forall|j: int| 0 <= j < i ==> out@[j]@ == fx_of_int(w@[j] as int),
                    decreases n - i,
                {
                    out.push(Fx::from_int(w[i]));
                    i += 1;
                }
                Ok(out)
            },
        }
    }

    /// Coerces to an integer vector; every value has one. Color channels
    /// become bytes, clamped into 0..=255.
    pub fn as_ivec(self) -> (r: Result<Vec<i64>, EvaluationError>)
        ensures
            r is Ok,
            r->Ok_0@.len() == spec_as_ivec(self).len(),
            forall|j: int|
                0 <= j < spec_as_ivec(self).len() ==> r->Ok_0@[j] as int == spec_as_ivec(self)[j],
    {
        match self {
            GVal::FNum(n, _) => {
                let mut out: Vec<i64> = Vec::new();
                out.push(n.trunc());
                Ok(out)
            },
            GVal::INum(n, _) => {
                let mut out: Vec<i64> = Vec::new();
                out.push(n);
                Ok(out)
            },
            GVal::Color(c) => {
                let mut out: Vec<i64> = Vec::new();
                out.push(c.r.to_byte_255() as i64);
                out.push(c.g.to_byte_255() as i64);
                out.push(c.b.to_byte_255() as i64);
                out.push(c.a.to_byte_255() as i64);
                Ok(out)
            },
            GVal::FVec(v, _) => {
                let mut out: Vec<i64> = Vec::new();
                let n = v.len();
                let mut i: usize = 0;
                while i < n
                    invariant
                        n == v@.len(),
                        i <= n,
                        out@.len() == i,
                        forall|j: int| 0 <= j < i ==> out@[j] as int == fx_trunc(v@[j]@),
                    decreases n - i,
                {
                    out.push(v[i].trunc());
                    i += 1;
                }
                Ok(out)
            },
            GVal::IVec(w, _) => Ok(w),
        }
    }
}

/// Strict fractional scalar: the variant must be `FNum` and, when bounds are
/// demanded, carry exactly those bounds.
pub fn gval_as_fnum(v: GVal, er: Option<FRange>) -> (r: Result<Fx, EvaluationError>)
    ensures
        r is Ok <==> (v is FNum && (er is Some ==> v->FNum_1 == er->Some_0)),
        r is Ok ==> r->Ok_0 == v->FNum_0,
        r is Err ==> r->Err_0 == EvaluationError::TypeMismatch,
{
    match v {
        GVal::FNum(n, range) => match er {
            Some(expected) => {
                if range == expected {
                    Ok(n)
                } else {
                    Err(EvaluationError::TypeMismatch)
                }
            },
            None => Ok(n),
        },
        _ => Err(EvaluationError::TypeMismatch),
    }
}

/// Strict integer scalar: the variant must be `INum` and, when bounds are
/// demanded, carry exactly those bounds.
pub fn gval_as_inum(v: GVal, er: Option<IRange>) -> (r: Result<i64, EvaluationError>)
    ensures
        r is Ok <==> (v is INum && (er is Some ==> v->INum_1 == er->Some_0)),
        r is Ok ==> r->Ok_0 == v->INum_0,
        r is Err ==> r->Err_0 == EvaluationError::TypeMismatch,
{
    match v {
        GVal::INum(n, range) => match er {
            Some(expected) => {
                if range == expected {
                    Ok(n)
                } else {
                    Err(EvaluationError::TypeMismatch)
                }
            },
            None => Ok(n),
        },
        _ => Err(EvaluationError::TypeMismatch),
    }
}

/// Strict fractional vector: the variant must be `FVec` and, when bounds are
/// demanded, carry exactly those bounds.
pub fn gval_as_fvec(v: GVal, er: Option<FRange>) -> (r: Result<Vec<Fx>, EvaluationError>)
    ensures
        r is Ok <==> (v is FVec && (er is Some ==> v->FVec_1 == er->Some_0)),
        r is Ok ==> r->Ok_0 == v->FVec_0,
        r is Err ==> r->Err_0 == EvaluationError::TypeMismatch,
{
    match v {
        GVal::FVec(vals, range) => match er {
            Some(expected) => {
                if range == expected {
                    Ok(vals)
                } else {
                    Err(EvaluationError::TypeMismatch)
                }
            },
            None => Ok(vals),
        },
        _ => Err(EvaluationError::TypeMismatch),
    }
}

/// Strict integer vector: the variant must be `IVec` and, when bounds are
/// demanded, carry exactly those bounds.
pub fn gval_as_ivec(v: GVal, er: Option<IRange>) -> (r: Result<Vec<i64>, EvaluationError>)
    ensures
        r is Ok <==> (v is IVec && (er is Some ==> v->IVec_1 == er->Some_0)),
        r is Ok ==> r->Ok_0 == v->IVec_0,
        r is Err ==> r->Err_0 == EvaluationError::TypeMismatch,
{
    match v {
        GVal::IVec(vals, range) => match er {
            Some(expected) => {
                if range == expected {
                    Ok(vals)
                } else {
                    Err(EvaluationError::TypeMismatch)
                }
            },
            None => Ok(vals),
        },
        _ => Err(EvaluationError::TypeMismatch),
    }
}

/// Strict color: the variant must be `Color`.
pub fn gval_as_col(v: GVal) -> (r: Result<Rgba, EvaluationError>)
    ensures
        r is Ok <==> v is Color,
        r is Ok ==> r->Ok_0 == v->Color_0,
        r is Err ==> r->Err_0 == EvaluationError::TypeMismatch,
{
    match v {
        GVal::Color(c) => Ok(c),
        _ => Err(EvaluationError::TypeMismatch),
    }
}

/// A port: its display name, and the constant value (with its kind's bounds)
/// used when no connection feeds it.
#[derive(Debug, Clone, PartialEq)]
pub struct Port {
    pub name: String,
    pub gval: GVal,
}

} // verus!

use tronomic::color::{Rgb, Rgba};
use tronomic::error::EvaluationError;
use tronomic::fixed::Fx;
use tronomic::port::{FRange, GType, GVal, IRange, gtype_of, gval_as_col, gval_as_fnum,
    gval_as_inum, gval_as_ivec, to_byte};

fn unit(micros: i64) -> Fx {
    Fx::from_micros(micros)
}

fn byte_range() -> IRange {
    IRange { min: 0, max: 255 }
}

fn unit_range() -> FRange {
    FRange { min: Fx::zero(), max: Fx::one() }
}

#[test]
fn color_as_int_vector_scales_and_clamps() {
    // 0.2, 0.4, 0.6, 1.0 on the 0..1 scale
    let c = Rgba { r: unit(200_000), g: unit(400_000), b: unit(600_000), a: unit(1_000_000) };
    let v = GVal::Color(c).as_ivec().unwrap();
    assert_eq!(v, vec![51, 102, 153, 255]);
}

#[test]
fn two_element_float_vector_as_color() {
    // [0.5, 0.25] coerces to {r: 0.5, g: 0.25, b: 0.0, a: 1.0}
    let v = GVal::FVec(vec![unit(500_000), unit(250_000)], unit_range());
    let c = v.as_color().unwrap();
    assert_eq!(c.r.micros(), 500_000);
    assert_eq!(c.g.micros(), 250_000);
    assert_eq!(c.b.micros(), 0);
    assert_eq!(c.a.micros(), 1_000_000);
}

#[test]
fn out_of_scale_color_channels_clamp_to_bytes() {
    let c = Rgba { r: unit(-100_000), g: unit(2_000_000), b: unit(0), a: unit(999_999) };
    let v = GVal::Color(c).as_ivec().unwrap();
    assert_eq!(v, vec![0, 255, 0, 254]);
}

#[test]
fn scalar_coerces_to_gray_color() {
    let c = GVal::INum(51, byte_range()).as_color().unwrap();
    // 51 / 255 == 0.2
    assert_eq!(c.r.micros(), 200_000);
    assert_eq!(c.g.micros(), 200_000);
    assert_eq!(c.b.micros(), 200_000);
    assert_eq!(c.a.micros(), 1_000_000);
}

#[test]
fn int_vector_as_color_defaults_alpha_full() {
    let v = GVal::IVec(vec![255, 0, 51], byte_range());
    let c = v.as_color().unwrap();
    assert_eq!(c.r.micros(), 1_000_000);
    assert_eq!(c.g.micros(), 0);
    assert_eq!(c.b.micros(), 200_000);
    assert_eq!(c.a.micros(), 1_000_000);
}

#[test]
fn color_has_no_scalar_coercion() {
    let c = GVal::Color(Rgba { r: unit(0), g: unit(0), b: unit(0), a: unit(0) });
    assert_eq!(c.clone().as_fnum().unwrap_err(), EvaluationError::TypeMismatch);
    assert_eq!(c.as_inum().unwrap_err(), EvaluationError::TypeMismatch);
}

#[test]
fn scalar_vector_coercions_are_length_one() {
    let v = GVal::INum(7, byte_range()).as_ivec().unwrap();
    assert_eq!(v, vec![7]);
    let f = GVal::FNum(unit(2_500_000), unit_range()).as_ivec().unwrap();
    assert_eq!(f, vec![2]);
    let s = GVal::FVec(vec![unit(1_500_000)], unit_range()).as_fnum().unwrap();
    assert_eq!(s.micros(), 1_500_000);
}

#[test]
fn strict_accessor_demands_exact_bounds() {
    let v = GVal::INum(3, byte_range());
    assert_eq!(gval_as_inum(v.clone(), Some(byte_range())).unwrap(), 3);
    let narrower = IRange { min: 0, max: 100 };
    assert_eq!(
        gval_as_inum(v.clone(), Some(narrower)).unwrap_err(),
        EvaluationError::TypeMismatch
    );
    assert_eq!(gval_as_inum(v, None).unwrap(), 3);
}

#[test]
fn strict_accessor_demands_matching_tag() {
    let v = GVal::FNum(unit(0), unit_range());
    assert_eq!(gval_as_inum(v.clone(), None).unwrap_err(), EvaluationError::TypeMismatch);
    assert_eq!(gval_as_fnum(v, None).unwrap().micros(), 0);
    let w = GVal::IVec(vec![1, 2], byte_range());
    assert_eq!(gval_as_ivec(w.clone(), Some(byte_range())).unwrap(), vec![1, 2]);
    assert_eq!(gval_as_col(w).unwrap_err(), EvaluationError::TypeMismatch);
}

#[test]
fn kinds_compare_exactly() {
    let a = GType::INum(byte_range());
    let b = GType::INum(IRange { min: 0, max: 100 });
    let c = GType::FNum(unit_range());
    assert!(a.is_equal_to(&a));
    assert!(!a.is_equal_to(&b));
    assert!(!a.is_equal_to(&c));
    assert!(GType::Color.is_equal_to(&GType::Color));
}

#[test]
fn gtype_of_reads_value_kind() {
    let v = GVal::IVec(vec![1], byte_range());
    assert_eq!(gtype_of(&v), GType::IVec(byte_range()));
}

#[test]
fn byte_clamp_truncates() {
    assert_eq!(to_byte(-5), 0);
    assert_eq!(to_byte(0), 0);
    assert_eq!(to_byte(255), 255);
    assert_eq!(to_byte(256), 255);
}

#[test]
fn fixed_point_conversions() {
    assert_eq!(Fx::from_int(3).micros(), 3_000_000);
    assert_eq!(Fx::from_int(-2).trunc(), -2);
    assert_eq!(Fx::from_micros(-1_500_000).trunc(), -1);
    assert_eq!(Fx::from_micros(1_999_999).trunc(), 1);
    assert_eq!(Fx::one().to_byte_255(), 255);
    assert_eq!(Fx::zero().to_byte_255(), 0);
    assert_eq!(Fx::from_micros(500_000).to_byte_255(), 127);
    assert!(Fx::zero().le(&Fx::one()));
    assert!(Fx::one().is_positive());
}

#[test]
fn rgb_rgba_round() {
    let c = Rgba { r: unit(1), g: unit(2), b: unit(3), a: unit(4) };
    let rgb: Rgb = c.to_rgb();
    let back = rgb.to_rgba();
    assert_eq!(back.r.micros(), 1);
    assert_eq!(back.a.micros(), 1_000_000);
    let bytes = Rgba::from_bytes([51, 102, 153, 255]).to_bytes();
    assert_eq!(bytes, [51, 102, 153, 255]);
}

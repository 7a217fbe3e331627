//! Color arithmetic on concrete values.

use topdown::color::{channel_byte, Color, ColorError, GAMMA_WEIGHT_R};
use topdown::fx::{Fx, FX_HALF, FX_ONE};

fn f(raw: i64) -> Fx {
    Fx { raw }
}

#[test]
fn rgb_fills_alpha_and_clears_flags() {
    let c = Color::rgb(f(FX_ONE), f(FX_HALF), f(0));
    assert_eq!(c.r.raw, FX_ONE);
    assert_eq!(c.g.raw, FX_HALF);
    assert_eq!(c.b.raw, 0);
    assert_eq!(c.a.raw, FX_ONE);
    assert!(!c.fg_default && !c.bg_default);
}

#[test]
fn rgb_255_scales_bytes_into_unit_range() {
    let c = Color::rgb_255(255, 0, 51);
    assert_eq!(c.r.raw, FX_ONE);
    assert_eq!(c.g.raw, 0);
    // 51/255 = 0.2: (51 * 65536 + 127) / 255 = 13107
    assert_eq!(c.b.raw, 13107);
    assert_eq!(c.a.raw, FX_ONE);
}

#[test]
fn rgba_255_scales_all_four_bytes() {
    let c = Color::rgba_255(0, 255, 51, 102);
    assert_eq!(c.r.raw, 0);
    assert_eq!(c.g.raw, FX_ONE);
    assert_eq!(c.b.raw, 13107);
    // 102/255 = 0.4: (102 * 65536 + 127) / 255 = 26214
    assert_eq!(c.a.raw, 26214);
}

#[test]
fn as_255_scales_every_component_exactly() {
    let c = Color::rgba(f(FX_ONE), f(FX_HALF), f(0), f(FX_ONE)).as_255();
    assert_eq!(c.r.raw, FX_ONE * 255);
    assert_eq!(c.g.raw, FX_HALF * 255);
    assert_eq!(c.b.raw, 0);
    assert_eq!(c.a.raw, FX_ONE * 255);
}

#[test]
fn clamp_caps_rgb_and_leaves_alpha() {
    let mut c = Color::rgba(f(3 * FX_ONE), f(-FX_ONE), f(FX_HALF), f(2 * FX_ONE));
    c.clamp(f(0), f(FX_ONE));
    assert_eq!(c.r.raw, FX_ONE);
    assert_eq!(c.g.raw, 0);
    assert_eq!(c.b.raw, FX_HALF);
    assert_eq!(c.a.raw, 2 * FX_ONE);
}

#[test]
fn clamp_lets_the_minimum_win_when_bounds_cross() {
    // capping at the maximum happens before raising to the minimum
    let mut c = Color::rgb(f(FX_HALF), f(FX_HALF), f(FX_HALF));
    c.clamp(f(2 * FX_ONE), f(FX_ONE));
    assert_eq!(c.r.raw, 2 * FX_ONE);
    assert_eq!(c.g.raw, 2 * FX_ONE);
    assert_eq!(c.b.raw, 2 * FX_ONE);
}

#[test]
fn clamp_u8_rounds_to_whole_bytes_and_rescales() {
    // 0.5 scales to 127.5, rounds half away to 128, and 128/255 comes back
    // as (128 * 65536 + 127) / 255 = 32897
    let mut c = Color::rgb(f(FX_HALF), f(-FX_ONE), f(3 * FX_ONE));
    c.clamp_u8(10, 200);
    assert_eq!(c.r.raw, 32897);
    // -1 saturates to byte 0, raised to the minimum 10: (10*65536+127)/255
    assert_eq!(c.g.raw, 2570);
    // 3.0 scales to 765, saturates to 255, capped to 200: (200*65536+127)/255
    assert_eq!(c.b.raw, 51401);
    assert_eq!(c.a.raw, FX_ONE);
}

#[test]
fn gamma_weights_each_channel() {
    let c = Color::rgb(f(FX_HALF), f(0), f(FX_ONE)).gamma_corrected();
    // 0.5 * 0.6914: (32768 * 45313 + 32768) / 65536 rounds half away to 22657
    assert_eq!(c.r.raw, 22657);
    assert_eq!(c.g.raw, 0);
    // 1.0 * weight is the weight itself
    assert_eq!(c.b.raw, topdown::color::GAMMA_WEIGHT_B);
    assert_eq!(GAMMA_WEIGHT_R, 45313);
    assert_eq!(c.a.raw, FX_ONE);
}

#[test]
fn mul_is_componentwise_on_all_four_channels() {
    let a = Color::rgba(f(FX_HALF), f(FX_ONE), f(2 * FX_ONE), f(FX_HALF));
    let b = Color::rgba(f(FX_HALF), f(FX_HALF), f(FX_HALF), f(FX_HALF));
    let c = a.mul(b);
    assert_eq!(c.r.raw, FX_ONE / 4);
    assert_eq!(c.g.raw, FX_HALF);
    assert_eq!(c.b.raw, FX_ONE);
    assert_eq!(c.a.raw, FX_ONE / 4);
}

#[test]
fn mul_scalar_scales_rgb_and_keeps_alpha() {
    let c = Color::rgba(f(FX_ONE), f(FX_HALF), f(0), f(FX_ONE)).mul_scalar(f(FX_HALF));
    assert_eq!(c.r.raw, FX_HALF);
    assert_eq!(c.g.raw, FX_ONE / 4);
    assert_eq!(c.b.raw, 0);
    assert_eq!(c.a.raw, FX_ONE);
}

#[test]
fn add_and_sub_are_exact() {
    let a = Color::rgba(f(100), f(200), f(300), f(400));
    let b = Color::rgba(f(1), f(2), f(3), f(4));
    let s = a.add(b);
    assert_eq!((s.r.raw, s.g.raw, s.b.raw, s.a.raw), (101, 202, 303, 404));
    let d = a.sub(b);
    assert_eq!((d.r.raw, d.g.raw, d.b.raw, d.a.raw), (99, 198, 297, 396));
}

#[test]
fn div_by_zero_component_is_an_error() {
    let a = Color::rgba(f(FX_ONE), f(FX_ONE), f(FX_ONE), f(FX_ONE));
    let b = Color::rgba(f(FX_ONE), f(0), f(FX_ONE), f(FX_ONE));
    assert_eq!(a.div(b), Err(ColorError::DivisionByZero));
    assert_eq!(a.div_scalar(f(0)), Err(ColorError::DivisionByZero));
}

#[test]
fn div_is_componentwise_when_no_divisor_is_zero() {
    let a = Color::rgba(f(FX_ONE), f(FX_ONE), f(3 * FX_ONE), f(FX_ONE));
    let b = Color::rgba(f(2 * FX_ONE), f(-2 * FX_ONE), f(2 * FX_ONE), f(FX_ONE));
    let c = a.div(b).unwrap();
    assert_eq!(c.r.raw, FX_HALF);
    assert_eq!(c.g.raw, -FX_HALF);
    assert_eq!(c.b.raw, FX_ONE + FX_HALF);
    assert_eq!(c.a.raw, FX_ONE);
    let d = a.div_scalar(f(2 * FX_ONE)).unwrap();
    assert_eq!(d.r.raw, FX_HALF);
    assert_eq!(d.a.raw, FX_ONE);
}

#[test]
fn arithmetic_carries_the_display_flags_through() {
    let mut a = Color::rgb(f(FX_ONE), f(FX_ONE), f(FX_ONE));
    a.fg_default = true;
    a.bg_default = true;
    let b = Color::rgb(f(FX_HALF), f(FX_HALF), f(FX_HALF));
    assert!(a.mul(b).fg_default && a.mul(b).bg_default);
    assert!(a.add(b).fg_default && a.add(b).bg_default);
    assert!(a.sub(b).fg_default && a.sub(b).bg_default);
    assert!(a.mul_scalar(f(FX_HALF)).fg_default);
    assert!(a.gamma_corrected().bg_default);
    assert!(a.as_255().fg_default);
    let mut c = a;
    c.clamp(f(0), f(FX_ONE));
    assert!(c.fg_default && c.bg_default);
    let mut d = a;
    d.clamp_u8(0, 255);
    assert!(d.fg_default && d.bg_default);
    assert!(!b.mul(a).fg_default, "flags come from the left operand");
}

#[test]
fn channel_byte_truncates_and_saturates() {
    assert_eq!(channel_byte(f(254 * FX_ONE + FX_ONE - 1)), 254);
    assert_eq!(channel_byte(f(255 * FX_ONE)), 255);
    assert_eq!(channel_byte(f(300 * FX_ONE)), 255);
    assert_eq!(channel_byte(f(-FX_ONE)), 0);
    assert_eq!(channel_byte(f(0)), 0);
}

#[test]
fn white_and_black_are_opaque() {
    let w = Color::white();
    assert_eq!((w.r.raw, w.g.raw, w.b.raw, w.a.raw), (FX_ONE, FX_ONE, FX_ONE, FX_ONE));
    let k = Color::black();
    assert_eq!((k.r.raw, k.g.raw, k.b.raw, k.a.raw), (0, 0, 0, FX_ONE));
}

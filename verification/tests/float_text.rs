use openrailsrs_formats::float_text::push_float;

fn reference(v: f64) -> String {
    if !v.is_finite() || v.abs() > 1.0e12 {
        return "0".into();
    }
    if (v - v.round()).abs() < 1e-6 {
        format!("{:.0}", v.round())
    } else {
        format!("{v:.6}")
    }
}

fn text(bits: u32) -> String {
    let mut out = Vec::new();
    push_float(&mut out, bits);
    String::from_utf8(out).expect("ascii")
}

#[test]
fn float_text_matches_rust_formatting_on_edge_values() {
    let values: [f32; 22] = [
        0.0, -0.0, 1.0, -1.0, 0.5, -0.5, 1.5, 2.5, -2.5, 0.3, -0.3, 1e-7, -1e-7, 123456.79,
        0.1234565, 1e12, 1.1e12, -1.1e12, f32::INFINITY, f32::NAN, 3.4028235e38, 1.0e-45,
    ];
    for v in values {
        assert_eq!(text(v.to_bits()), reference(v as f64), "value {v:?}");
    }
}

#[test]
fn float_text_matches_rust_formatting_on_many_patterns() {
    let mut x: u32 = 0x1234_5678;
    for _ in 0..200_000 {
        x = x.wrapping_mul(1_664_525).wrapping_add(1_013_904_223);
        let v = f32::from_bits(x);
        assert_eq!(text(x), reference(v as f64), "bits {x:#x}");
    }
}

#[test]
fn float_text_exact_values() {
    assert_eq!(text(1.0f32.to_bits()), "1");
    assert_eq!(text((-0.25f32).to_bits()), "-0.250000");
    assert_eq!(text(0.1f32.to_bits()), "0.100000");
    assert_eq!(text((-0.3f32).to_bits()), "-0.300000");
    assert_eq!(text(2.5f32.to_bits()), "2.500000");
    assert_eq!(text(f32::NAN.to_bits()), "0");
}

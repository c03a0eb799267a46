use ktx2_cubemap::rgb9e5::float3_to_rgb9e5;

fn bits(v: f32) -> u16 {
    half::f16::from_f32(v).to_bits()
}

/// Decodes one channel of a packed RGB9E5 word as an f64.
fn decode_channel(word: u32, channel: u32) -> f64 {
    let mantissa = (word >> (9 * channel)) & 0x1ff;
    let exp = (word >> 27) as i32;
    mantissa as f64 * ((exp - 24) as f64).exp2()
}

#[test]
fn encode_zero_is_zero() {
    assert_eq!(float3_to_rgb9e5(bits(0.0), bits(0.0), bits(0.0)), 0);
}

#[test]
fn encode_solid_color() {
    // (1.0, 0.5, 0.25): shared exponent 16, mantissas 256, 128, 64.
    let w = float3_to_rgb9e5(bits(1.0), bits(0.5), bits(0.25));
    assert_eq!(w, 0x8101_0100);
}

#[test]
fn encode_round_trip_within_tolerance() {
    let samples = [
        0.0f32, 1.0, 0.5, 0.25, 0.75, 1.5, 3.14159, 100.0, 1000.5, 0.001, 0.0001, 65000.0, 0.125,
        7.0, 42.42, 5.9e-8, 6.1e-5,
    ];
    for &r in &samples {
        for &g in &samples {
            let b = (r + g) * 0.5;
            let w = float3_to_rgb9e5(bits(r), bits(g), bits(b));
            let exp = (w >> 27) as i32;
            // Half a unit of the shared-exponent step.
            let tol = ((exp - 24) as f64).exp2() * 0.5;
            let inputs = [
                half::f16::from_f32(r).to_f64(),
                half::f16::from_f32(g).to_f64(),
                half::f16::from_f32(b).to_f64(),
            ];
            for c in 0..3u32 {
                let clamped = inputs[c as usize].clamp(0.0, 65408.0);
                let decoded = decode_channel(w, c);
                assert!(
                    (decoded - clamped).abs() <= tol,
                    "channel {c}: decoded {decoded}, expected {clamped} +/- {tol}"
                );
            }
        }
    }
}

#[test]
fn encode_clamps_negative_nan_and_infinity() {
    // Negative clamps to 0, NaN clamps to 0, +infinity clamps to the
    // largest encodable value (mantissa 511 at exponent 31).
    let w = float3_to_rgb9e5(bits(-1.0), half::f16::NAN.to_bits(), half::f16::INFINITY.to_bits());
    assert_eq!(w & 0x1ff, 0);
    assert_eq!((w >> 9) & 0x1ff, 0);
    assert_eq!((w >> 18) & 0x1ff, 511);
    assert_eq!(w >> 27, 31);
}

#[test]
fn encode_largest_finite_half() {
    // 65504 is above the RGB9E5 maximum 65408 and clamps to it.
    let w = float3_to_rgb9e5(bits(65504.0), bits(0.0), bits(0.0));
    assert_eq!(w & 0x1ff, 511);
    assert_eq!(w >> 27, 31);
    assert_eq!(decode_channel(w, 0), 65408.0);
}

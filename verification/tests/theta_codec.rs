use ft_linear_regression::theta::{get_theta, read_theta, theta_to_bytes, ThetaBits};

fn bits(intercept: f64, slope: f64) -> ThetaBits {
    ThetaBits { intercept: intercept.to_bits(), slope: slope.to_bits() }
}

#[test]
fn round_trip_is_bit_identical() {
    let samples = [
        (0.0, 0.0),
        (3.0, 2.0),
        (-1.5, 0.25),
        (1.0e-300, -7.25e200),
        (f64::MAX, f64::MIN_POSITIVE),
        (-0.0, 1.0 / 3.0),
        (f64::INFINITY, f64::NEG_INFINITY),
    ];
    for (a, b) in samples {
        let t = bits(a, b);
        let encoded = theta_to_bytes(t);
        let decoded = read_theta(&encoded).expect("a 16-byte image must decode");
        assert_eq!(decoded, t);
        assert_eq!(f64::from_bits(decoded.intercept).to_bits(), a.to_bits());
        assert_eq!(f64::from_bits(decoded.slope).to_bits(), b.to_bits());
    }
}

#[test]
fn layout_is_big_endian_intercept_then_slope() {
    let t = bits(3.5, -2.0);
    let encoded = theta_to_bytes(t);
    assert_eq!(encoded.len(), 16);
    let mut expected = Vec::new();
    expected.extend_from_slice(&3.5f64.to_be_bytes());
    expected.extend_from_slice(&(-2.0f64).to_be_bytes());
    assert_eq!(encoded, expected);
}

#[test]
fn decode_refuses_any_other_length() {
    assert_eq!(read_theta(&vec![0u8; 10]), None);
    assert_eq!(read_theta(&vec![0u8; 0]), None);
    assert_eq!(read_theta(&vec![0u8; 15]), None);
    assert_eq!(read_theta(&vec![0u8; 17]), None);
}

#[test]
fn malformed_file_falls_back_to_zero_pair() {
    let ten = vec![1u8; 10];
    let t = get_theta(Some(&ten));
    assert_eq!(f64::from_bits(t.intercept), 0.0);
    assert_eq!(f64::from_bits(t.slope), 0.0);
}

#[test]
fn absent_file_falls_back_to_zero_pair() {
    let t = get_theta(None);
    assert_eq!(t, ThetaBits { intercept: 0, slope: 0 });
}

#[test]
fn well_formed_file_is_loaded() {
    let t = bits(42.25, -0.125);
    let encoded = theta_to_bytes(t);
    assert_eq!(get_theta(Some(&encoded)), t);
}

use soradyne_core::storage::galois::GF256;

#[test]
fn test_gf256_basic_operations() {
    let gf = GF256::new();

    // Addition is XOR
    assert_eq!(gf.add(0x53, 0xCA), 0x99);
    assert_eq!(gf.add(0xFF, 0xFF), 0x00);
    assert_eq!(gf.add(0x00, 0xFF), 0xFF);

    // Subtraction is the same as addition in GF(2^n)
    assert_eq!(gf.subtract(0x53, 0xCA), 0x99);
    assert_eq!(gf.subtract(0xFF, 0xFF), 0x00);
}

#[test]
fn test_gf256_multiplication() {
    let gf = GF256::new();

    assert_eq!(gf.multiply(0, 5), 0);
    assert_eq!(gf.multiply(5, 0), 0);
    assert_eq!(gf.multiply(1, 5), 5);
    assert_eq!(gf.multiply(5, 1), 5);

    assert_eq!(gf.multiply(2, 2), 4);
    assert_eq!(gf.multiply(2, 3), 6);
    assert_eq!(gf.multiply(3, 3), 5); // x^2 + 1

    for a in 1..=10 {
        for b in 1..=10 {
            assert_eq!(gf.multiply(a, b), gf.multiply(b, a));
        }
    }
}

#[test]
fn test_gf256_inverse() {
    let gf = GF256::new();

    for a in 1..=255u8 {
        let inv_a = gf.inverse(a).unwrap();
        assert_eq!(gf.multiply(a, inv_a), 1, "Failed for a={}", a);
    }

    assert!(gf.inverse(0).is_err());
}

#[test]
fn test_gf256_division() {
    let gf = GF256::new();

    assert_eq!(gf.divide(0, 5).unwrap(), 0);
    assert_eq!(gf.divide(5, 1).unwrap(), 5);
    assert_eq!(gf.divide(6, 2).unwrap(), 3);

    assert!(gf.divide(5, 0).is_err());

    for a in 1..=10 {
        for b in 1..=10 {
            let product = gf.multiply(a, b);
            let quotient = gf.divide(product, b).unwrap();
            assert_eq!(quotient, a, "Failed for a={}, b={}", a, b);
        }
    }
}

#[test]
fn test_gf256_power() {
    let gf = GF256::new();

    assert_eq!(gf.power(2, 0), 1);
    assert_eq!(gf.power(2, 1), 2);
    assert_eq!(gf.power(2, 2), 4);
    assert_eq!(gf.power(2, 3), 8);

    assert_eq!(gf.power(0, 0), 1);
    assert_eq!(gf.power(0, 5), 0);

    for a in 1..=10 {
        assert_eq!(gf.power(a, 1), a);
    }
}

#[test]
fn test_polynomial_evaluation() {
    let gf = GF256::new();

    let poly = vec![5];
    assert_eq!(gf.eval_polynomial(&poly, 10), 5);

    // 3 + 2x
    let poly = vec![3, 2];
    assert_eq!(gf.eval_polynomial(&poly, 0), 3);
    assert_eq!(gf.eval_polynomial(&poly, 1), gf.add(3, 2));
    assert_eq!(gf.eval_polynomial(&poly, 5), gf.add(3, gf.multiply(2, 5)));

    // 1 + 2x + 3x^2
    let poly = vec![1, 2, 3];
    let x = 4;
    let expected = gf.add(gf.add(1, gf.multiply(2, x)), gf.multiply(3, gf.multiply(x, x)));
    assert_eq!(gf.eval_polynomial(&poly, x), expected);
}

#[test]
fn test_lagrange_interpolation() {
    let gf = GF256::new();

    let points = vec![(1, 5), (2, 5), (3, 5)];
    let result = gf.lagrange_interpolate_at_zero(&points).unwrap();
    assert_eq!(result, 5);

    // f(x) = 3 + 2x
    let points = vec![
        (1, gf.add(3, gf.multiply(2, 1))),
        (2, gf.add(3, gf.multiply(2, 2))),
        (3, gf.add(3, gf.multiply(2, 3))),
    ];
    let result = gf.lagrange_interpolate_at_zero(&points).unwrap();
    assert_eq!(result, 3);

    // f(x) = 42 + 17x + 23x^2
    let secret = 42u8;
    let poly = vec![secret, 17, 23];
    let points = vec![
        (1, gf.eval_polynomial(&poly, 1)),
        (2, gf.eval_polynomial(&poly, 2)),
        (3, gf.eval_polynomial(&poly, 3)),
    ];
    let recovered = gf.lagrange_interpolate_at_zero(&points).unwrap();
    assert_eq!(recovered, secret);
}

#[test]
fn test_shamir_secret_sharing_simulation() {
    let gf = GF256::new();
    let secret = 123u8;
    let threshold = 3;
    let total_shares = 5;

    let mut poly = vec![secret];
    for _ in 1..threshold {
        poly.push(42);
    }

    let mut shares = Vec::new();
    for i in 1..=total_shares {
        let x = i as u8;
        let y = gf.eval_polynomial(&poly, x);
        shares.push((x, y));
    }

    let points = &shares[..threshold];
    let recovered = gf.lagrange_interpolate_at_zero(points).unwrap();
    assert_eq!(recovered, secret);

    let points = vec![shares[0], shares[2], shares[4]];
    let recovered = gf.lagrange_interpolate_at_zero(&points).unwrap();
    assert_eq!(recovered, secret);

    // Two points still interpolate, to some value.
    let points = &shares[..threshold - 1];
    let _recovered = gf.lagrange_interpolate_at_zero(points).unwrap();
}

// ---------------------------------------------------------------------------
// Further checks of the field
// ---------------------------------------------------------------------------

#[test]
fn gf256_known_products() {
    let gf = GF256::new();
    // x * x^7 = x^8 = x^4 + x^3 + x + 1
    assert_eq!(gf.multiply(0x02, 0x80), 0x1B);
    // The AES example: {57} * {83} = {c1}
    assert_eq!(gf.multiply(0x57, 0x83), 0xC1);
    assert_eq!(gf.multiply(0x57, 0x13), 0xFE);
}

#[test]
fn gf256_multiplication_associates_and_distributes() {
    let gf = GF256::new();
    for a in [1u8, 7, 0x53, 0xCA, 0xFF] {
        for b in [2u8, 3, 0x80, 0x1B] {
            for c in [5u8, 0x11, 0xFE] {
                assert_eq!(gf.multiply(gf.multiply(a, b), c), gf.multiply(a, gf.multiply(b, c)));
                assert_eq!(gf.multiply(a, gf.add(b, c)), gf.add(gf.multiply(a, b), gf.multiply(a, c)));
            }
        }
    }
}

#[test]
fn gf256_power_of_generator_cycles() {
    let gf = GF256::new();
    // 3 generates the multiplicative group: 3^255 = 1 and no smaller power is 1.
    assert_eq!(gf.power(3, 255), 1);
    for e in 1..255u8 {
        assert_ne!(gf.power(3, e), 1);
    }
    assert_eq!(gf.power(3, 2), 5);
    assert_eq!(gf.power(2, 8), 0x1B);
}

#[test]
fn gf256_division_by_zero_error() {
    let gf = GF256::new();
    assert_eq!(gf.divide(0, 0), Err("Division by zero in GF(256)"));
    assert_eq!(gf.inverse(0), Err("Zero has no multiplicative inverse"));
}

#[test]
fn gf256_lagrange_repeated_x_fails() {
    let gf = GF256::new();
    assert!(gf.lagrange_interpolate_at_zero(&[(1, 5), (1, 7)]).is_err());
    assert!(gf.lagrange_interpolate_at_zero(&[(2, 5), (3, 6), (2, 5)]).is_err());
    // One point: the constant polynomial through it.
    assert_eq!(gf.lagrange_interpolate_at_zero(&[(9, 77)]), Ok(77));
}

#[test]
fn gf256_default_matches_new() {
    let a = GF256::default();
    let b = GF256::new();
    for x in 0..=255u8 {
        assert_eq!(a.multiply(x, 0x1D), b.multiply(x, 0x1D));
    }
}

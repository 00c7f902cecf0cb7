use sync_multi_sig::primitives::ChaChaStream;
use sync_multi_sig::{LargeNTTPoly, LargePoly, SignedPoly, SmallNTTPoly, SmallPoly, TerPolyCoeffEncoding};
use sync_multi_sig::{LARGE_MODULUS, LARGE_MODULUS_BITS, N, SMALL_MODULUS, SMALL_MODULUS_BITS};

#[test]
fn small_poly_test_conversion() {
    let mut rng = ChaChaStream::from_seed([0u8; 32]);
    for _ in 0..10 {
        let poly = SmallPoly::rand_poly(&mut rng);
        let poly_ntt = SmallNTTPoly::from_small(&poly);
        let poly_rec = poly_ntt.to_small();
        assert_eq!(poly, poly_rec)
    }
}

#[test]
fn small_poly_test_arithmetic() {
    let mut rng = ChaChaStream::from_seed([0u8; 32]);
    for _ in 0..10 {
        let a = SmallPoly::rand_poly(&mut rng);
        let a_ntt = SmallNTTPoly::from_small(&a);
        let b = SmallPoly::rand_poly(&mut rng);
        let b_ntt = SmallNTTPoly::from_small(&b);
        {
            let c = a_ntt.mul(b_ntt).to_small();
            let c_rec = SmallPoly::schoolbook(&a, &b);
            assert_eq!(c, c_rec);
        }
        {
            let d = a_ntt.add(b_ntt).to_small();
            let d_rec = a.add(b);
            assert_eq!(d, d_rec)
        }
    }
}

#[test]
fn small_poly_test_decomposition() {
    let mut rng = ChaChaStream::from_seed([0u8; 32]);
    for _ in 0..10 {
        let poly = SmallPoly::rand_poly(&mut rng);
        let decomposed = poly.decompose();
        let poly_rec = SmallPoly::projection(&decomposed);
        assert_eq!(poly, poly_rec);
    }
}

#[test]
fn large_poly_test_conversion() {
    let mut rng = ChaChaStream::from_seed([0u8; 32]);
    for _ in 0..10 {
        let poly = LargePoly::rand_poly(&mut rng);
        let poly_ntt = LargeNTTPoly::from_large(&poly);
        let poly_rec = poly_ntt.to_large();
        assert_eq!(poly, poly_rec)
    }
}

#[test]
fn large_poly_test_arithmetic() {
    let mut rng = ChaChaStream::from_seed([0u8; 32]);
    for _ in 0..10 {
        let a = LargePoly::rand_poly(&mut rng);
        let a_ntt = LargeNTTPoly::from_large(&a);
        let b = LargePoly::rand_poly(&mut rng);
        let b_ntt = LargeNTTPoly::from_large(&b);
        {
            let c = a_ntt.mul(b_ntt).to_large();
            let c_rec = LargePoly::schoolbook(&a, &b);
            assert_eq!(c, c_rec);
        }
        {
            let d = a_ntt.add(b_ntt).to_large();
            let d_rec = a.add(b);
            assert_eq!(d, d_rec)
        }
    }
}

#[test]
fn large_poly_test_decomposition() {
    let mut rng = ChaChaStream::from_seed([0u8; 32]);
    for _ in 0..10 {
        let poly = LargePoly::rand_poly(&mut rng);
        let decomposed = poly.decompose();
        let poly_rec = LargePoly::projection(&decomposed);
        assert_eq!(poly, poly_rec);
    }
}

#[test]
fn test_ter_mul() {
    let mut rng = ChaChaStream::from_seed([0u8; 32]);
    let half_weight = 11;
    for _ in 0..10 {
        let ter_poly = SignedPoly::rand_ternary(&mut rng, half_weight);
        let bin_poly = SignedPoly::rand_binary(&mut rng);
        let ter_poly_coeff_encoding = TerPolyCoeffEncoding::from_signed(&ter_poly);

        let prod_1 = SignedPoly::schoolbook(&bin_poly, &ter_poly, SMALL_MODULUS as i32);
        let prod_2 = SignedPoly::ter_mul_bin(&ter_poly_coeff_encoding, &bin_poly);
        let prod_3 = SmallPoly::from_signed(&ter_poly).mul(SmallPoly::from_signed(&bin_poly));
        let prod_4 = LargePoly::from_signed(&ter_poly).mul(LargePoly::from_signed(&bin_poly));
        let prod_5 = SignedPoly::schoolbook(&bin_poly, &ter_poly, LARGE_MODULUS as i32);
        assert_eq!(prod_1.lifted_small(), prod_2.lifted_small());
        assert_eq!(prod_1.lifted_small(), prod_3);
        assert_eq!(prod_5.lifted_large(), prod_4);
        assert_eq!(prod_5.lifted_large(), prod_2.lifted_large());
    }
}

#[test]
fn ternary_sampler_has_exact_weight() {
    let mut rng = ChaChaStream::from_seed([1u8; 32]);
    for _ in 0..10 {
        let t = SignedPoly::rand_ternary(&mut rng, 11);
        assert!(t.is_ternary());
        assert_eq!(t.coeffs.iter().filter(|&&c| c == 1).count(), 11);
        assert_eq!(t.coeffs.iter().filter(|&&c| c == -1).count(), 11);
        assert!(t.coeffs[256..].iter().all(|&c| c == 0));
    }
}

#[test]
fn samplers_stay_in_range() {
    let mut rng = ChaChaStream::from_seed([2u8; 32]);
    let s = SignedPoly::rand_mod_beta_s(&mut rng);
    assert!(s.coeffs.iter().all(|&c| -59 <= c && c <= 59));
    assert!(s.coeffs.iter().any(|&c| c != s.coeffs[0]));
    let b = SignedPoly::rand_binary(&mut rng);
    assert!(b.is_binary());
    let w = SignedPoly::rand_fixed_weight_binary(&mut rng, 30);
    assert_eq!(w.coeffs.iter().filter(|&&c| c == 1).count(), 30);
    let t = SignedPoly::rand_fixed_weight_ternary(&mut rng, 59);
    assert_eq!(t.coeffs.iter().filter(|&&c| c != 0).count(), 59);
    assert!(t.is_ternary());
    let m = SignedPoly::from_hash_message(b"this is the message to sign");
    assert_eq!(m.coeffs.iter().filter(|&&c| c != 0).count(), 59);
    assert_eq!(m, SignedPoly::from_hash_message(b"this is the message to sign"));
    assert_ne!(m, SignedPoly::from_hash_message(b"another message"));
}

#[test]
fn decomposition_rows_are_bits() {
    let mut p = SmallPoly::default();
    p.coeffs[0] = 5;
    p.coeffs[1] = 12288;
    let d = p.decompose();
    assert_eq!(d.len(), SMALL_MODULUS_BITS);
    assert_eq!(d[0].coeffs[0], 1);
    assert_eq!(d[1].coeffs[0], 0);
    assert_eq!(d[2].coeffs[0], 1);
    assert_eq!(d[12].coeffs[1], 1);
    assert_eq!(d[13].coeffs[1], 1);
    assert_eq!(d[0].coeffs[1], 0);
    let mut q = LargePoly::default();
    q.coeffs[3] = LARGE_MODULUS - 1;
    let e = q.decompose();
    assert_eq!(e.len(), LARGE_MODULUS_BITS);
    assert_eq!(LargePoly::projection(&e), q);
}

#[test]
fn projection_reduces_sums() {
    // digits may be any integers: 2 * 2^13 + 1 = 16385 = 12289 + 4096
    let mut rows = [SignedPoly::default(); SMALL_MODULUS_BITS];
    rows[13].coeffs[0] = 2;
    rows[0].coeffs[0] = 1;
    rows[0].coeffs[1] = -1;
    let p = SmallPoly::projection(&rows);
    assert_eq!(p.coeffs[0], 4096);
    assert_eq!(p.coeffs[1], 12288);
}

#[test]
fn small_addition_wraps() {
    let mut a = SmallPoly::default();
    let mut b = SmallPoly::default();
    a.coeffs[0] = 12000;
    b.coeffs[0] = 1000;
    a.coeffs[1] = 3;
    b.coeffs[1] = 4;
    let c = a.add(b);
    assert_eq!(c.coeffs[0], 711);
    assert_eq!(c.coeffs[1], 7);
}

#[test]
fn product_by_x_is_negacyclic() {
    // X^(N-1) * X = X^N = -1
    let mut a = SmallPoly::default();
    let mut b = SmallPoly::default();
    a.coeffs[N - 1] = 1;
    b.coeffs[1] = 1;
    let c = a.mul(b);
    assert_eq!(c.coeffs[0], SMALL_MODULUS - 1);
    assert!(c.coeffs[1..].iter().all(|&x| x == 0));
    assert_eq!(SmallPoly::schoolbook(&a, &b), c);
}

#[test]
fn sparse_product_of_shift() {
    // the ternary X^0 + X^1 + ... - (X^11 + ...) times the binary X^(N-1)
    let mut enc = TerPolyCoeffEncoding { indices: [0usize; 22] };
    for i in 0..22 {
        enc.indices[i] = i;
    }
    let mut b = SignedPoly::default();
    b.coeffs[N - 1] = 1;
    let p = SignedPoly::ter_mul_bin(&enc, &b);
    // X^0 * X^(N-1) = X^(N-1); X^1 * X^(N-1) = -1
    assert_eq!(p.coeffs[N - 1], 1);
    assert_eq!(p.coeffs[0], -1);
    // -X^11 * X^(N-1) = X^10
    assert_eq!(p.coeffs[10], 1);
    assert_eq!(p.coeffs[9], -1);
}

#[test]
fn encoding_lists_positions() {
    let mut t = SignedPoly::default();
    for i in 0..11 {
        t.coeffs[3 * i] = 1;
        t.coeffs[3 * i + 1] = -1;
    }
    let e = TerPolyCoeffEncoding::from_signed(&t);
    for i in 0..11 {
        assert_eq!(e.indices[i], 3 * i);
        assert_eq!(e.indices[11 + i], 3 * i + 1);
    }
}

#[test]
fn digests_serialize_coefficients() {
    let a = SmallPoly::default();
    let mut b = SmallPoly::default();
    b.coeffs[0] = 256;
    assert_ne!(a.digest(), b.digest());
    assert_eq!(a.digest(), SmallPoly::default().digest());
    let c = LargePoly::default();
    let mut d = LargePoly::default();
    d.coeffs[0] = 1 << 16;
    assert_ne!(c.digest(), d.digest());
}

fn hex(bytes: &[u8]) -> String {
    bytes.iter().map(|b| format!("{:02x}", b)).collect()
}

#[test]
fn digest_of_zero_polynomials() {
    // SHA-256 of 512 and of 1024 zero bytes
    assert_eq!(hex(&SmallPoly::default().digest()), "076a27c79e5ace2a3d47f9dd2e83e4ff6ea8872b3c2218f66c92b89b55f36560");
    assert_eq!(hex(&LargePoly::default().digest()), "5f70bf18a086007016e948b04aed3b82103a36bea41755b6cddfaf10ace3c6ef");
}

#[test]
fn non_uniform_samplers_are_reduced() {
    let mut rng = ChaChaStream::from_seed([8u8; 32]);
    let s = SmallPoly::rand_non_uniform_poly(&mut rng);
    assert!(s.is_reduced());
    let l = LargePoly::rand_non_uniform_poly(&mut rng);
    assert!(l.is_reduced());
    assert!(l.coeffs.iter().any(|&c| c != l.coeffs[0]));
}

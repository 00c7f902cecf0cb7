use rand::{RngCore, SeedableRng};
use rand_chacha::ChaCha20Rng;
use sync_multi_sig::primitives::ChaChaStream;
use sync_multi_sig::hots::batch_verify_with_aggregated_pk;
use sync_multi_sig::{HOTSHash, HotsPK, LargePoly, RandomizedHOTSPK, Randomizers, SignedPoly, SmallPoly, TerPolyCoeffEncoding, HOTS};
use sync_multi_sig::LARGE_MODULUS_BITS;

#[test]
fn hash_test_hash() {
    let mut rng = ChaChaStream::from_seed([0u8; 32]);
    let hasher = HOTSHash::init(&mut rng);
    let inputs: Vec<SignedPoly> = (0..LARGE_MODULUS_BITS << 1).map(|_| SignedPoly::rand_binary(&mut rng)).collect();
    let h = hasher.hash(&inputs);
    assert!(h.is_reduced());
}

#[test]
fn hash_test_homomorphism() {
    let mut rng = ChaChaStream::from_seed([0u8; 32]);
    let hasher = HOTSHash::init(&mut rng);
    for _ in 0..2 {
        {
            let poly1 = LargePoly::rand_poly(&mut rng);
            let poly2 = LargePoly::rand_poly(&mut rng);
            let d: Vec<SignedPoly> = poly1.decompose().iter().zip(poly2.decompose().iter()).map(|(&x, &y)| x.add(y)).collect();
            assert_eq!(poly1.add(poly2), LargePoly::projection(&d));
        }
        {
            let r1 = SignedPoly::rand_ternary(&mut rng, 11);
            let r2 = SignedPoly::rand_ternary(&mut rng, 11);
            let e1 = TerPolyCoeffEncoding::from_signed(&r1);
            let e2 = TerPolyCoeffEncoding::from_signed(&r2);
            let left_a = LargePoly::rand_poly(&mut rng);
            let right_a = LargePoly::rand_poly(&mut rng);
            let left_b = LargePoly::rand_poly(&mut rng);
            let right_b = LargePoly::rand_poly(&mut rng);
            let rand = |p: &LargePoly, e: &TerPolyCoeffEncoding| -> Vec<SignedPoly> {
                p.decompose().iter().map(|x| SignedPoly::ter_mul_bin(e, x)).collect()
            };
            let x1: Vec<SignedPoly> = rand(&left_a, &e1).iter().zip(rand(&left_b, &e2).iter()).map(|(&x, &y)| x.add(y)).collect();
            let x2: Vec<SignedPoly> = rand(&right_a, &e1).iter().zip(rand(&right_b, &e2).iter()).map(|(&x, &y)| x.add(y)).collect();
            let poly1 = hasher.decom_then_hash(&left_a, &right_a);
            let poly2 = hasher.decom_then_hash(&left_b, &right_b);
            let poly = poly1.mul(SmallPoly::from_signed(&r1)).add(poly2.mul(SmallPoly::from_signed(&r2)));
            assert_eq!(poly, hasher.hash_separate_inputs(&x1, &x2));
        }
    }
}

#[test]
fn test_hots() {
    let message = "this is the message to sign";
    let mut seed = [0u8; 32];
    let mut rng = ChaChaStream::from_seed(seed);
    let pp = HOTS::setup(&mut rng);
    let mut seeds = ChaCha20Rng::from_seed(seed);
    seeds.fill_bytes(&mut seed);
    let mut pks = Vec::new();
    let mut sigs = Vec::new();
    let mut roots = Vec::new();
    for counter in 0..10 {
        let (pk, sk) = HOTS::key_gen(&seed, counter, &pp);
        let sig = HOTS::sign(&sk, message.as_ref());
        assert!(HOTS::verify(&pk, message.as_ref(), &sig, &pp));
        assert!(!HOTS::verify(&pk, b"another message", &sig, &pp));
        pks.push(pk);
        sigs.push(sig);
        roots.push(SmallPoly::rand_poly(&mut rng));
    }
    let agg_sig = HOTS::aggregate(&sigs, &roots);
    assert!(HOTS::batch_verify(&pks, message.as_ref(), &agg_sig, &roots, &pp));
    let pk_randomized: Vec<RandomizedHOTSPK> = pks.iter().map(RandomizedHOTSPK::from_pk).collect();
    let agg_pk_randomized = RandomizedHOTSPK::aggregate(&pk_randomized, &roots);
    assert!(batch_verify_with_aggregated_pk(&agg_pk_randomized, message.as_ref(), &agg_sig, &pp));
    let mut other_roots = roots.clone();
    other_roots.swap(0, 1);
    assert!(!HOTS::batch_verify(&pks, message.as_ref(), &agg_sig, &other_roots, &pp));
}

#[test]
fn test_homomorphic_hash() {
    let mut seed = [0u8; 32];
    let mut rng = ChaChaStream::from_seed(seed);
    let pp = HOTS::setup(&mut rng);
    let hasher = HOTSHash::init(&mut rng);
    let mut seeds = ChaCha20Rng::from_seed(seed);
    for _ in 0..2 {
        seeds.fill_bytes(&mut seed);
        let mut pks_randomized = Vec::new();
        let mut roots = Vec::new();
        let mut digests = Vec::new();
        for counter in 0..2 {
            let (pk, _sk) = HOTS::key_gen(&seed, counter, &pp);
            let rand_pk = RandomizedHOTSPK::from_pk(&pk);
            let digest = rand_pk.digest(&hasher);
            assert_eq!(digest, pk.digest(&hasher));
            pks_randomized.push(rand_pk);
            digests.push(digest);
            roots.push(SmallPoly::rand_poly(&mut rng));
        }
        let randomizers = Randomizers::from_pks(&roots);
        let agg_pk_randomized = RandomizedHOTSPK::aggregate(&pks_randomized, &roots);
        let agg_digest = agg_pk_randomized.digest(&hasher);
        let mut agg_digest_rec = SmallPoly::default();
        for (&d, r) in digests.iter().zip(randomizers.poly.iter()) {
            agg_digest_rec.add_assign(d.mul(SmallPoly::from_signed(r)));
        }
        assert_eq!(agg_digest, agg_digest_rec);
    }
}

#[test]
fn aggregated_keys_agree() {
    let mut rng = ChaChaStream::from_seed([6u8; 32]);
    let pp = HOTS::setup(&mut rng);
    let seed = [7u8; 32];
    let pks: Vec<HotsPK> = (0..2).map(|c| HOTS::key_gen(&seed, c, &pp).0).collect();
    let roots: Vec<SmallPoly> = (0..2).map(|_| SmallPoly::rand_poly(&mut rng)).collect();
    let plain = HotsPK::aggregate(&pks, &roots);
    let decomposed: Vec<RandomizedHOTSPK> = pks.iter().map(RandomizedHOTSPK::from_pk).collect();
    let projected = RandomizedHOTSPK::aggregate(&decomposed, &roots).to_pk();
    assert_eq!(plain.v0, projected.v0);
    assert_eq!(plain.v1, projected.v1);
}

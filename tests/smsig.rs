use rand::{RngCore, SeedableRng};
use rand_chacha::ChaCha20Rng;
use sync_multi_sig::primitives::ChaChaStream;
use sync_multi_sig::{SMSigParam, SMSigScheme, SMSignature, SmallPoly};

const MESSAGE: &str = "this is the message to sign";

fn setup(height: usize) -> SMSigParam {
    let mut rng = ChaChaStream::from_seed([0u8; 32]);
    SMSigScheme::setup_with_height(&mut rng, height)
}

fn signers(pp: &SMSigParam, count: usize, index: usize) -> (Vec<SmallPoly>, Vec<SMSignature>) {
    let mut rng = ChaCha20Rng::from_seed([9u8; 32]);
    let mut pks = Vec::new();
    let mut sigs = Vec::new();
    for _ in 0..count {
        let mut seed = [0u8; 32];
        rng.fill_bytes(&mut seed);
        let (pk, sk) = SMSigScheme::key_gen(&seed, pp);
        let sig = SMSigScheme::sign(&sk, index, MESSAGE.as_ref(), pp);
        assert!(SMSigScheme::verify(&pk, MESSAGE.as_ref(), &sig, pp));
        pks.push(pk);
        sigs.push(sig);
    }
    (pks, sigs)
}

#[test]
fn test_smsig() {
    let pp = setup(4);
    let mut rng = ChaCha20Rng::from_seed([0u8; 32]);
    let mut seed = [0u8; 32];
    for _ in 0..2 {
        rng.fill_bytes(&mut seed);
        let (pk, sk) = SMSigScheme::key_gen(&seed, &pp);
        for _ in 0..5 {
            let index = rng.next_u32() % 8;
            let sig = SMSigScheme::sign(&sk, index as usize, MESSAGE.as_ref(), &pp);
            assert!(SMSigScheme::verify(&pk, MESSAGE.as_ref(), &sig, &pp))
        }
    }
    let (pks, sigs) = signers(&pp, 10, 3);
    let agg_sig = SMSigScheme::aggregate(&sigs, &pks);
    assert!(SMSigScheme::batch_verify(&pks, MESSAGE.as_ref(), &agg_sig, &pp))
}

#[test]
fn sign_at_zero_and_verify() {
    let pp = setup(2);
    let (pk, sk) = SMSigScheme::key_gen(&[0u8; 32], &pp);
    let sig = SMSigScheme::sign(&sk, 0, MESSAGE.as_ref(), &pp);
    assert!(SMSigScheme::verify(&pk, MESSAGE.as_ref(), &sig, &pp));
    assert!(!SMSigScheme::verify(&pk, b"this is another message", &sig, &pp));
}

#[test]
fn sign_at_several_indices() {
    let pp = setup(7);
    let (pk, sk) = SMSigScheme::key_gen(&[0u8; 32], &pp);
    for &i in [0usize, 1, 5, 42, 63].iter() {
        let sig = SMSigScheme::sign(&sk, i, MESSAGE.as_ref(), &pp);
        assert!(SMSigScheme::verify(&pk, MESSAGE.as_ref(), &sig, &pp));
    }
}

#[test]
fn wrong_key_or_index_rejected() {
    let pp = setup(2);
    let (pk, sk) = SMSigScheme::key_gen(&[0u8; 32], &pp);
    let (other_pk, _) = SMSigScheme::key_gen(&[1u8; 32], &pp);
    let mut sig = SMSigScheme::sign(&sk, 1, MESSAGE.as_ref(), &pp);
    assert!(!SMSigScheme::verify(&other_pk, MESSAGE.as_ref(), &sig, &pp));
    sig.path.index = 0;
    assert!(!SMSigScheme::verify(&pk, MESSAGE.as_ref(), &sig, &pp));
}

#[test]
fn aggregate_and_batch_verify() {
    let pp = setup(2);
    let (pks, sigs) = signers(&pp, 25, 1);
    let agg = SMSigScheme::aggregate(&sigs, &pks);
    assert!(SMSigScheme::batch_verify(&pks, MESSAGE.as_ref(), &agg, &pp));
    assert!(!SMSigScheme::batch_verify(&pks, b"another message", &agg, &pp));
}

#[test]
fn aggregate_at_index_seven() {
    let pp = setup(4);
    let (pks, sigs) = signers(&pp, 10, 7);
    let agg = SMSigScheme::aggregate(&sigs, &pks);
    assert_eq!(agg.path.index, 7);
    assert!(SMSigScheme::batch_verify(&pks, MESSAGE.as_ref(), &agg, &pp));
}

#[test]
fn flipped_bit_rejected() {
    let pp = setup(4);
    let (pks, sigs) = signers(&pp, 10, 7);
    let mut agg = SMSigScheme::aggregate(&sigs, &pks);
    agg.path.nodes[0].0[0].coeffs[0] ^= 1;
    assert!(!SMSigScheme::batch_verify(&pks, MESSAGE.as_ref(), &agg, &pp));
}

#[test]
fn wrong_attribution_rejected() {
    let pp = setup(4);
    let (pks, sigs) = signers(&pp, 10, 7);
    let agg = SMSigScheme::aggregate(&sigs, &pks);
    let mut wrong = pks.clone();
    wrong[1] = pks[0];
    assert!(!SMSigScheme::batch_verify(&wrong, MESSAGE.as_ref(), &agg, &pp));
}

#[test]
fn aggregate_single_signer() {
    let pp = setup(2);
    let (pks, sigs) = signers(&pp, 1, 0);
    let agg = SMSigScheme::aggregate(&sigs, &pks);
    assert!(agg.path.is_randomized && agg.hots_pk.is_randomized && agg.hots_sig.is_randomized);
    assert!(SMSigScheme::batch_verify(&pks, MESSAGE.as_ref(), &agg, &pp));
}

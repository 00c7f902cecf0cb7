use rand::{RngCore, SeedableRng};
use rand_chacha::ChaCha20Rng;
use sync_multi_sig::primitives::ChaChaStream;
use sync_multi_sig::{HVCHash, HVC, Path, RandomizedPath, Randomizers, SignedPoly, SmallPoly, TerPolyCoeffEncoding, Tree};
use sync_multi_sig::{HEIGHT, SMALL_MODULUS_BITS};

fn random_leaves(rng: &mut ChaChaStream, n: usize) -> Vec<SmallPoly> {
    (0..n).map(|_| SmallPoly::rand_poly(rng)).collect()
}

#[test]
fn hvc_test_hash() {
    let mut rng = ChaChaStream::from_seed([0u8; 32]);
    let hasher = HVCHash::init(&mut rng);
    let inputs: Vec<SmallPoly> = (0..SMALL_MODULUS_BITS << 1).map(|_| SmallPoly::rand_poly(&mut rng)).collect();
    let h = hasher.hash(&inputs);
    assert_eq!(h, hasher.hash(&inputs));
    assert!(h.is_reduced());
}

#[test]
fn hvc_test_homomorphism() {
    let mut rng = ChaChaStream::from_seed([0u8; 32]);
    let hasher = HVCHash::init(&mut rng);
    for _ in 0..3 {
        {
            let poly1 = SmallPoly::rand_poly(&mut rng);
            let poly2 = SmallPoly::rand_poly(&mut rng);
            let d1 = poly1.decompose();
            let d2 = poly2.decompose();
            let decomposed: Vec<SignedPoly> = d1.iter().zip(d2.iter()).map(|(&x, &y)| x.add(y)).collect();
            assert_eq!(poly1.add(poly2), SmallPoly::projection(&decomposed));
        }
        {
            let poly1 = SmallPoly::rand_poly(&mut rng);
            let poly2 = SmallPoly::rand_poly(&mut rng);
            let r1 = SignedPoly::rand_ternary(&mut rng, 11);
            let r2 = SignedPoly::rand_ternary(&mut rng, 11);
            let e1 = TerPolyCoeffEncoding::from_signed(&r1);
            let e2 = TerPolyCoeffEncoding::from_signed(&r2);
            let d1: Vec<SignedPoly> = poly1.decompose().iter().map(|x| SignedPoly::ter_mul_bin(&e1, x)).collect();
            let d2: Vec<SignedPoly> = poly2.decompose().iter().map(|x| SignedPoly::ter_mul_bin(&e2, x)).collect();
            let decomposed: Vec<SignedPoly> = d1.iter().zip(d2.iter()).map(|(&x, &y)| x.add(y)).collect();
            let poly = poly1.mul(SmallPoly::from_signed(&r1)).add(poly2.mul(SmallPoly::from_signed(&r2)));
            assert_eq!(poly, SmallPoly::projection(&decomposed));
        }
        {
            let r1 = SignedPoly::rand_ternary(&mut rng, 11);
            let r2 = SignedPoly::rand_ternary(&mut rng, 11);
            let e1 = TerPolyCoeffEncoding::from_signed(&r1);
            let e2 = TerPolyCoeffEncoding::from_signed(&r2);
            let left_a = SmallPoly::rand_poly(&mut rng);
            let right_a = SmallPoly::rand_poly(&mut rng);
            let left_b = SmallPoly::rand_poly(&mut rng);
            let right_b = SmallPoly::rand_poly(&mut rng);
            let rand = |p: &SmallPoly, e: &TerPolyCoeffEncoding| -> Vec<SignedPoly> {
                p.decompose().iter().map(|x| SignedPoly::ter_mul_bin(e, x)).collect()
            };
            let x1: Vec<SignedPoly> = rand(&left_a, &e1).iter().zip(rand(&left_b, &e2).iter()).map(|(&x, &y)| x.add(y)).collect();
            let x2: Vec<SignedPoly> = rand(&right_a, &e1).iter().zip(rand(&right_b, &e2).iter()).map(|(&x, &y)| x.add(y)).collect();
            let poly1 = hasher.decom_then_hash(&left_a, &right_a);
            let poly2 = hasher.decom_then_hash(&left_b, &right_b);
            let poly = poly1.mul(SmallPoly::from_signed(&r1)).add(poly2.mul(SmallPoly::from_signed(&r2)));
            assert_eq!(poly, hasher.hash_separate_inputs(&x1, &x2));
        }
    }
}

#[test]
fn test_tree() {
    let mut rng = ChaChaStream::from_seed([0u8; 32]);
    let hasher = HVCHash::init(&mut rng);
    let leafs = random_leaves(&mut rng, 64);
    let tree = Tree::new_with_leaf_nodes(&leafs, &hasher);
    assert_eq!(tree.height, 7);
    let mut picks = ChaCha20Rng::from_seed([0u8; 32]);
    for _ in 0..100 {
        let index = picks.next_u32() % 64;
        let proof = tree.gen_proof(index as usize);
        assert_eq!(proof.nodes.len(), 6);
        assert!(proof.verify(&tree.root(), &hasher));
    }
}

#[test]
fn tree_rejects_other_root_and_index() {
    let mut rng = ChaChaStream::from_seed([3u8; 32]);
    let hasher = HVCHash::init(&mut rng);
    let leafs = random_leaves(&mut rng, 8);
    let tree = Tree::new_with_leaf_nodes(&leafs, &hasher);
    let mut proof = tree.gen_proof(5);
    assert!(proof.verify(&tree.root(), &hasher));
    assert!(!proof.verify(&leafs[0], &hasher));
    proof.index = 1;
    assert!(!proof.verify(&tree.root(), &hasher));
    assert_eq!(proof.nodes[2], (leafs[4], leafs[5]));
}

#[test]
fn tree_proofs_round_trip() {
    let mut rng = ChaChaStream::from_seed([4u8; 32]);
    let hasher = HVCHash::init(&mut rng);
    let leafs = random_leaves(&mut rng, 16);
    let tree = Tree::new_with_leaf_nodes(&leafs, &hasher);
    for &i in [0usize, 1, 15].iter() {
        let proof = tree.gen_proof(i);
        let randomized = RandomizedPath::from_path(&proof);
        let back = randomized.to_path();
        assert_eq!(back, proof);
        assert!(back.verify(&tree.root(), &hasher));
    }
}

#[test]
fn test_path() {
    let mut rng = ChaChaStream::from_seed([0u8; 32]);
    let hasher = HVCHash::init(&mut rng);
    for _ in 0..10 {
        let (path, root) = Path::random_for_testing(&mut rng, &hasher);
        assert_eq!(path.nodes.len(), HEIGHT - 1);
        assert!(path.verify(&root, &hasher))
    }
}

#[test]
fn test_path_conversion() {
    let mut rng = ChaChaStream::from_seed([0u8; 32]);
    let hasher = HVCHash::init(&mut rng);
    for _ in 0..10 {
        let (path, _root) = Path::random_for_testing(&mut rng, &hasher);
        let randomize_path = RandomizedPath::from_path(&path);
        let path_rec = randomize_path.to_path();
        assert_eq!(path, path_rec)
    }
}

#[test]
fn test_randomized_path() {
    let mut rng = ChaChaStream::from_seed([0u8; 32]);
    let hasher = HVCHash::init(&mut rng);
    let leafs = random_leaves(&mut rng, 8);
    let mut paths = vec![];
    let mut roots = vec![];
    for _ in 0..10 {
        let leaves = random_leaves(&mut rng, 8);
        let tree = Tree::new_with_leaf_nodes(&leaves, &hasher);
        let path = tree.gen_proof(6);
        assert!(path.verify(&tree.root(), &hasher));
        paths.push(path);
        roots.push(tree.root());
    }
    let path = Path::aggregation(&paths, &roots);
    assert!(path.verify(&roots, &hasher));
    let mut wrong = roots.clone();
    wrong[1] = leafs[0];
    assert!(!path.verify(&wrong, &hasher));
}

#[test]
fn randomizers_are_deterministic() {
    let mut rng = ChaChaStream::from_seed([5u8; 32]);
    let roots = random_leaves(&mut rng, 3);
    let a = Randomizers::from_pks(&roots);
    let b = Randomizers::from_pks(&roots);
    assert_eq!(a, b);
    assert_eq!(a.poly.len(), 3);
    for r in a.poly.iter() {
        assert_eq!(r.coeffs.iter().filter(|&&c| c == 1).count(), 11);
        assert_eq!(r.coeffs.iter().filter(|&&c| c == -1).count(), 11);
    }
    let c = Randomizers::from_pks(&roots[..2]);
    assert_ne!(a.poly[0], c.poly[0]);
}

#[test]
fn vector_commitment_round() {
    let mut rng = ChaChaStream::from_seed([10u8; 32]);
    let hasher = HVCHash::init(&mut rng);
    let mut proofs = Vec::new();
    let mut roots = Vec::new();
    for _ in 0..3 {
        let msg = random_leaves(&mut rng, 4);
        let c = HVC::commit(&hasher, &msg);
        let proof = c.open(2);
        assert!(HVC::verify_single(&hasher, &proof, &c.0.root()));
        assert_eq!(proof.nodes[1], (msg[2], msg[3]));
        proofs.push(proof);
        roots.push(c.0.root());
    }
    let agg = HVC::aggregate(&proofs, &roots);
    assert!(HVC::verify_aggregated(&hasher, &agg, &roots));
    roots.swap(0, 2);
    assert!(!HVC::verify_aggregated(&hasher, &agg, &roots));
}

#[test]
fn streams_of_one_seed_agree() {
    let mut a = ChaChaStream::from_seed([11u8; 32]);
    let mut b = ChaChaStream::from_seed([11u8; 32]);
    assert_eq!(SmallPoly::rand_poly(&mut a), SmallPoly::rand_poly(&mut b));
    assert_eq!(SignedPoly::rand_ternary(&mut a, 11), SignedPoly::rand_ternary(&mut b, 11));
    let mut c = ChaChaStream::from_seed([12u8; 32]);
    assert_ne!(SmallPoly::rand_poly(&mut a), SmallPoly::rand_poly(&mut c));
}

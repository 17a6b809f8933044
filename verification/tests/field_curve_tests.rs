use mpc_node::adkg::ADKGNode;
use mpc_node::curve::G1Point;
use mpc_node::field::Fr;

const MODULUS_LE: [u8; 32] = [
    0x01, 0x00, 0x00, 0x00, 0xff, 0xff, 0xff, 0xff, 0xfe, 0x5b, 0xfe, 0xff, 0x02, 0xa4, 0xbd, 0x53,
    0x05, 0xd8, 0xa1, 0x09, 0x08, 0xd8, 0x39, 0x33, 0x48, 0x7d, 0x9d, 0x29, 0x53, 0xa7, 0xed, 0x73,
];

fn fr(v: u64) -> Fr {
    let mut bytes = [0u8; 32];
    bytes[..8].copy_from_slice(&v.to_le_bytes());
    Fr::from_bytes(bytes).unwrap()
}

#[test]
fn field_arithmetic_exact_values() {
    // 3 + 2x + 5x^2 at 4 exercises addition, multiplication and powers.
    assert_eq!(ADKGNode::evaluate_polynomial(&[fr(3), fr(2), fr(5)], 4), fr(91));
    // 2^10 as the top term of x^10.
    let mut coeffs = vec![fr(0); 10];
    coeffs.push(fr(1));
    assert_eq!(ADKGNode::evaluate_polynomial(&coeffs, 2), fr(1024));
    // The empty sum is zero, and x^0 is one even at zero.
    assert_eq!(ADKGNode::evaluate_polynomial(&[], 7).to_bytes(), [0u8; 32]);
    assert_eq!(ADKGNode::evaluate_polynomial(&[fr(1)], 0), fr(1));
}

#[test]
fn subtraction_wraps_modulo_order() {
    // The line through (1, 0) and (2, 1) is x - 1, whose value at zero is -1.
    let minus_one = ADKGNode::reconstruct_secret(vec![(1, fr(0)), (2, fr(1))]);
    let mut expected = MODULUS_LE;
    expected[0] = 0x00;
    assert_eq!(minus_one.to_bytes(), expected);
}

#[test]
fn inversion() {
    // The line through (2, 1) and (3, 0) is 3 - x; recovering its constant divides by
    // the differences 1 and -1.
    assert_eq!(ADKGNode::reconstruct_secret(vec![(2, fr(1)), (3, fr(0))]), fr(3));
    // Through (1, 1) and (4, 2): x/3 + 2/3, whose value at zero is 2/3.
    let two_thirds = ADKGNode::reconstruct_secret(vec![(1, fr(1)), (4, fr(2))]);
    assert_eq!(ADKGNode::evaluate_polynomial(&[fr(0), two_thirds], 3), fr(2));
}

#[test]
fn scalar_bytes_must_be_canonical() {
    assert!(Fr::from_bytes(MODULUS_LE).is_none());
    let mut below = MODULUS_LE;
    below[0] = 0x00;
    let x = Fr::from_bytes(below).unwrap();
    assert_eq!(x.to_bytes(), below);
    assert!(Fr::from_bytes([0xff; 32]).is_none());
    let mut small = [0u8; 32];
    small[0] = 42;
    assert_eq!(Fr::from_bytes(small).unwrap().to_bytes(), small);
}

#[test]
fn random_elements_are_canonical() {
    let mut node = ADKGNode::new("n".to_string(), 3, 1, 1);
    let (coeffs, secret) = node.generate_polynomial(1);
    assert_eq!(Fr::from_bytes(secret.to_bytes()), Some(secret));
    assert_eq!(coeffs[0], secret);
}

#[test]
fn group_operations_follow_exponents() {
    let ga = G1Point::generator_mul(&fr(11));
    let gb = G1Point::generator_mul(&fr(31));
    assert!(ga.add(&gb).equals(&G1Point::generator_mul(&fr(42))));
    assert!(ga.mul(&fr(31)).equals(&G1Point::generator_mul(&fr(341))));
    assert!(G1Point::identity().equals(&G1Point::generator_mul(&fr(0))));
    assert!(ga.add(&G1Point::identity()).equals(&ga));
    assert!(!ga.equals(&gb));
}

#[test]
fn compressed_points_round_trip() {
    let p = G1Point::generator_mul(&fr(5));
    let bytes = p.to_compressed();
    let q = G1Point::from_compressed(bytes).unwrap();
    assert!(p.equals(&q));
    // Identity encoding: compression and infinity flags.
    let mut id = [0u8; 48];
    id[0] = 0xc0;
    assert_eq!(G1Point::identity().to_compressed(), id);
    assert!(G1Point::from_compressed([0u8; 48]).is_none());
    assert!(G1Point::from_compressed([0xff; 48]).is_none());
}

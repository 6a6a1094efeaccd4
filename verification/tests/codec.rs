use zkinterface_bellman::error::Error;
use zkinterface_bellman::export::encode_scalar;
use zkinterface_bellman::field::FieldElement;
use zkinterface_bellman::import::decode_scalar;

const MODULUS_LE: [u8; 32] = [
    0x01, 0x00, 0x00, 0x00, 0xff, 0xff, 0xff, 0xff, 0xfe, 0x5b, 0xfe, 0xff, 0x02, 0xa4, 0xbd, 0x53,
    0x05, 0xd8, 0xa1, 0x09, 0x08, 0xd8, 0x39, 0x33, 0x48, 0x7d, 0x9d, 0x29, 0x53, 0xa7, 0xed, 0x73,
];

fn encoded(fr: &FieldElement) -> Vec<u8> {
    let mut out = Vec::new();
    encode_scalar(fr, &mut out);
    out
}

#[test]
fn decode_of_empty_bytes_is_zero() {
    assert_eq!(decode_scalar(&[]), Ok(FieldElement::zero()));
    assert_eq!(encoded(&decode_scalar(&[]).unwrap()), vec![0u8; 32]);
}

#[test]
fn decode_rejects_more_than_the_canonical_width() {
    assert_eq!(decode_scalar(&[0u8; 33]), Err(Error::EncodingError));
    let mut long = vec![0u8; 33];
    long[0] = 7;
    assert_eq!(decode_scalar(&long), Err(Error::EncodingError));
}

#[test]
fn decode_rejects_the_modulus_and_above() {
    assert_eq!(decode_scalar(&MODULUS_LE), Err(Error::EncodingError));
    assert_eq!(decode_scalar(&[0xffu8; 32]), Err(Error::EncodingError));
    let mut above = MODULUS_LE;
    above[0] = 0x02;
    assert_eq!(decode_scalar(&above), Err(Error::EncodingError));
}

#[test]
fn decode_accepts_the_largest_element() {
    let mut largest = MODULUS_LE;
    largest[0] = 0x00;
    let fe = decode_scalar(&largest).unwrap();
    assert_eq!(fe.to_bytes(), largest);
    assert_eq!(encoded(&fe), largest.to_vec());
}

#[test]
fn decode_pads_short_input_with_zeros() {
    let fe = decode_scalar(&[3]).unwrap();
    let mut expected = [0u8; 32];
    expected[0] = 3;
    assert_eq!(fe.to_bytes(), expected);
    let fe = decode_scalar(&[0x34, 0x12]).unwrap();
    let mut expected = [0u8; 32];
    expected[0] = 0x34;
    expected[1] = 0x12;
    assert_eq!(fe.to_bytes(), expected);
}

#[test]
fn encode_is_never_trimmed() {
    assert_eq!(encoded(&FieldElement::one()).len(), 32);
    let mut expected = vec![0u8; 32];
    expected[0] = 1;
    assert_eq!(encoded(&FieldElement::one()), expected);
    assert_eq!(encoded(&FieldElement::zero()), vec![0u8; 32]);
}

#[test]
fn encode_appends_to_what_is_there() {
    let mut out = vec![9u8, 8];
    encode_scalar(&FieldElement::one(), &mut out);
    assert_eq!(out.len(), 34);
    assert_eq!(&out[..3], &[9, 8, 1]);
}

#[test]
fn decode_undoes_encode() {
    for bytes in [vec![], vec![1], vec![0xff, 0xff, 0xff], vec![0, 0, 0, 0, 0, 0, 0, 0, 5]] {
        let fe = decode_scalar(&bytes).unwrap();
        assert_eq!(decode_scalar(&encoded(&fe)), Ok(fe));
    }
}

#[test]
fn encode_of_decode_may_be_longer_than_the_input() {
    let fe = decode_scalar(&[5]).unwrap();
    assert_eq!(encoded(&fe).len(), 32);
    assert!(fe.same(&decode_scalar(&[5, 0, 0]).unwrap()));
    assert!(!fe.same(&FieldElement::one()));
}

#[test]
fn decode_agrees_with_the_field_crate() {
    let three = bls12_381::Scalar::from(3u64);
    let nine = three * three;
    let fe = decode_scalar(&nine.to_bytes()).unwrap();
    assert_eq!(fe, decode_scalar(&[9]).unwrap());
    let minus_one = -bls12_381::Scalar::from(1u64);
    assert!(decode_scalar(&minus_one.to_bytes()).is_ok());
}

use blockproof::field::{element_from_repr, encode, encode_all, is_canonical, zero_element};
use sha2::{Digest, Sha256};

#[test]
fn encode_is_deterministic() {
    let a = encode("hello");
    let b = encode("hello");
    assert_eq!(a.repr_bytes(), b.repr_bytes());
    let c = encode("");
    let d = encode("");
    assert_eq!(c.repr_bytes(), d.repr_bytes());
}

#[test]
fn encode_takes_the_digest_when_canonical() {
    let digest = Sha256::digest("sigA".as_bytes()).to_vec();
    assert!(is_canonical(&digest));
    assert_eq!(encode("sigA").repr_bytes(), &digest);
    assert_ne!(encode("sigA").repr_bytes().as_slice(), "sigA".as_bytes());
}

#[test]
fn encode_out_of_range_falls_back_to_zero() {
    let digest = Sha256::digest("abcd".as_bytes()).to_vec();
    assert!(!is_canonical(&digest));
    assert_eq!(encode("abcd").repr_bytes(), zero_element().repr_bytes());
    assert_eq!(encode("a").repr_bytes().as_slice(), &[0u8; 32][..]);
}

#[test]
fn encoding_failure_does_not_halt_later_encodings() {
    let raws = vec!["sigA".to_string(), "abcd".to_string(), "sigB1".to_string()];
    let elems = encode_all(&raws);
    assert_eq!(elems.len(), 3);
    assert_eq!(elems[0].repr_bytes(), encode("sigA").repr_bytes());
    assert_eq!(elems[1].repr_bytes().as_slice(), &[0u8; 32][..]);
    assert_eq!(elems[2].repr_bytes(), encode("sigB1").repr_bytes());
}

#[test]
fn zero_element_is_all_zero() {
    assert_eq!(zero_element().repr_bytes().as_slice(), &[0u8; 32][..]);
}

#[test]
fn canonical_range_boundaries() {
    // The modulus itself, little-endian.
    let modulus: Vec<u8> = vec![
        0x01, 0x00, 0x00, 0x00, 0xff, 0xff, 0xff, 0xff, 0xfe, 0x5b, 0xfe, 0xff, 0x02, 0xa4,
        0xbd, 0x53, 0x05, 0xd8, 0xa1, 0x09, 0x08, 0xd8, 0x39, 0x33, 0x48, 0x7d, 0x9d, 0x29,
        0x53, 0xa7, 0xed, 0x73,
    ];
    assert!(!is_canonical(&modulus));
    assert!(element_from_repr(modulus.clone()).is_none());
    // One below the modulus.
    let mut below = modulus.clone();
    below[0] = 0x00;
    assert!(is_canonical(&below));
    let e = element_from_repr(below.clone()).unwrap();
    assert_eq!(e.repr_bytes(), &below);
    // Wrong length.
    assert!(!is_canonical(&vec![0u8; 31]));
    assert!(!is_canonical(&vec![0u8; 33]));
    // All ones is far above the modulus.
    assert!(!is_canonical(&vec![0xffu8; 32]));
    // Zero is canonical.
    assert!(is_canonical(&vec![0u8; 32]));
}

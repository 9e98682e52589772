use blockproof::bundle::{assemble_bundle, bundle_file_name, flatten_signatures};
use blockproof::commit::commitment;
use blockproof::field::{encode, is_canonical};
use sha2::{Digest, Sha256};

#[test]
fn block_with_three_signatures() {
    let lists = vec![
        vec!["sigA".to_string()],
        vec!["sigB1".to_string(), "sigB2".to_string()],
    ];
    let sigs = flatten_signatures(&lists);
    assert_eq!(sigs, vec!["sigA", "sigB1", "sigB2"]);
    let proofs = vec!["p1".to_string(), "p2".to_string(), "p3".to_string()];
    let b = assemble_bundle(10, "abcd".to_string(), &sigs, &proofs);
    assert_eq!(b.slot, 10);
    assert_eq!(b.block_hash, "abcd");
    assert_eq!(b.transactions.len(), 3);
    assert_eq!(b.transactions[0].transaction_hash, "sigA");
    assert_eq!(b.transactions[1].transaction_hash, "sigB1");
    assert_eq!(b.transactions[2].transaction_hash, "sigB2");
    assert_eq!(b.transactions[0].proof, "p1");
    assert_eq!(b.transactions[1].proof, "p2");
    assert_eq!(b.transactions[2].proof, "p3");
    assert_eq!(bundle_file_name(10), "block_proof_10.json");
}

#[test]
fn flattening_keeps_declaration_order() {
    let lists: Vec<Vec<String>> = vec![
        vec![],
        vec!["x".to_string()],
        vec![],
        vec!["y".to_string(), "z".to_string()],
    ];
    assert_eq!(flatten_signatures(&lists), vec!["x", "y", "z"]);
    let empty: Vec<Vec<String>> = Vec::new();
    assert!(flatten_signatures(&empty).is_empty());
}

#[test]
fn repeated_assembly_agrees_on_everything_but_proofs() {
    let sigs = vec!["sigA".to_string(), "sigB1".to_string()];
    let first = assemble_bundle(7, "h".to_string(), &sigs, &vec!["r1".to_string(), "r2".to_string()]);
    let second = assemble_bundle(7, "h".to_string(), &sigs, &vec!["q1".to_string(), "q2".to_string()]);
    assert_eq!(first.slot, second.slot);
    assert_eq!(first.block_hash, second.block_hash);
    assert_eq!(first.transactions.len(), second.transactions.len());
    for (a, b) in first.transactions.iter().zip(second.transactions.iter()) {
        assert_eq!(a.transaction_hash, b.transaction_hash);
    }
    assert_eq!(bundle_file_name(7), bundle_file_name(7));
}

#[test]
fn file_names_cover_the_slot_range() {
    assert_eq!(bundle_file_name(0), "block_proof_0.json");
    assert_eq!(bundle_file_name(57), "block_proof_57.json");
    assert_eq!(
        bundle_file_name(u64::MAX),
        "block_proof_18446744073709551615.json"
    );
}

#[test]
fn commitment_of_no_transactions_is_digest_of_nothing() {
    let elems = Vec::new();
    let d = Sha256::digest(&[] as &[u8]).to_vec();
    assert!(is_canonical(&d));
    assert_eq!(commitment(&elems).repr_bytes(), &d);
}

#[test]
fn commitment_digests_the_concatenated_representations() {
    let elems = vec![encode("sigB1")];
    let d = Sha256::digest(encode("sigB1").repr_bytes()).to_vec();
    let expected = if is_canonical(&d) { d } else { vec![0u8; 32] };
    assert_eq!(commitment(&elems).repr_bytes(), &expected);
}

#[test]
fn commitment_out_of_range_falls_back_to_zero() {
    let elems = vec![encode("sigA")];
    let d = Sha256::digest(encode("sigA").repr_bytes()).to_vec();
    assert!(!is_canonical(&d));
    assert_eq!(commitment(&elems).repr_bytes().as_slice(), &[0u8; 32][..]);
}

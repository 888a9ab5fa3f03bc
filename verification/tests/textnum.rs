use adkg::decimal::{parse_all_digits, parse_trailing_number, signature_note, u64_to_string};
use adkg::merkle_tree::{digest_hex, MerkleTreeProver, MerkleTreeVerifier};

#[test]
fn decimal_round_trip() {
    assert_eq!(u64_to_string(0), "0");
    assert_eq!(u64_to_string(907), "907");
    assert_eq!(u64_to_string(u64::MAX), format!("{}", u64::MAX));
    assert_eq!(parse_all_digits(&String::from("907")), Some(907));
    assert_eq!(parse_all_digits(&String::from("")), None);
    assert_eq!(parse_all_digits(&String::from("12a")), None);
    assert_eq!(parse_all_digits(&String::from("99999999999999999999999")), None);
}

#[test]
fn trailing_number_extraction() {
    assert_eq!(parse_trailing_number(&String::from("signed by 42")), Some(42));
    assert_eq!(parse_trailing_number(&String::from("signed by 42x")), None);
    assert_eq!(parse_trailing_number(&String::from("7")), Some(7));
    assert_eq!(parse_trailing_number(&String::from("")), None);
}

#[test]
fn signature_note_names_its_signer() {
    let content = vec![1412430usize, 2311];
    let note = signature_note(&content, 7);
    assert_eq!(
        note,
        "The set of dealer is [1412430, 2311], which is SIGNATURED by 7"
    );
    assert_eq!(parse_trailing_number(&note), Some(7));
    let empty_note = signature_note(&Vec::new(), 12);
    assert_eq!(empty_note, "The set of dealer is [], which is SIGNATURED by 12");
    assert_eq!(parse_trailing_number(&empty_note), Some(12));
}

#[test]
fn merkle_commit_and_verify() {
    let mut leaves: Vec<Vec<u8>> = Vec::new();
    for i in 0..8u8 {
        leaves.push(vec![i, i + 1, i + 2]);
    }
    let prover = MerkleTreeProver::new(leaves.clone());
    let verifier = MerkleTreeVerifier { merkle_root: prover.commit(), leave_number: 8 };
    let indices = vec![0usize, 3, 7];
    let proof = prover.open(&indices);
    let opened: Vec<Vec<u8>> = indices.iter().map(|&i| leaves[i].clone()).collect();
    assert!(verifier.verify(&proof, &indices, &opened));

    // a tampered leaf is rejected
    let mut bad = opened.clone();
    bad[1][0] ^= 1;
    assert!(!verifier.verify(&proof, &indices, &bad));

    // a tampered authentication layer is rejected
    let mut bad_proof = proof.clone();
    bad_proof[10] ^= 1;
    assert!(!verifier.verify(&bad_proof, &indices, &opened));

    // digests are hex text of the right length
    assert_eq!(digest_hex(&vec![1, 2, 3]).len(), 64);
}

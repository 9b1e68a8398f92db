use stellarconduit_sync_engine::errors::SyncEngineError;
use stellarconduit_sync_engine::queue::zk_spend_proof::is_spoilt;
use stellarconduit_sync_engine::queue::{SpendCapProof, SpendCapVerifier};

fn bytes(text: &str) -> Vec<u8> {
    (0..text.len())
        .step_by(2)
        .map(|i| u8::from_str_radix(&text[i..i + 2], 16).unwrap())
        .collect()
}

fn array(text: &str) -> [u8; 32] {
    bytes(text).try_into().unwrap()
}

/// The range proof over nine values, padded to sixteen.
const PROOF: [&str; 29] = [
    "f8e8b00fa3c408bd1c25c1b7bcf0143a360ad2f9f172837b4d7c491f2c2e4221",
    "8c249c9ed87e7477003c80eee8f00e1ca2661f209a40d782f6b954958829435b",
    "2aa6e4ffa89c161c324448d3e1f525b4621093f0c8e3d3c94d02de3d9c71d22f",
    "de2b93f81820103df08b58da2710c509361440f712a018c2a90523b4ad097f7d",
    "f48cf7fc1fef55e341ebfd68fea406d34b9bf0f9f165e39a7902eaa7a51ef10c",
    "8737dbb43140ec0a0cfb63072119cdc605053c3f91e26236705b8976680aed06",
    "92aa1f482d1ebffb836f4c948608f3ecf634fd1dab222e0f6d264c534d8efa0c",
    "2e581a341602a5d6637167049a730589e637e8f97da04583f5042870e094e510",
    "c82293b15820098c87849e276f7f891f56c905d05317949abd95150b352b237c",
    "f0d34878b1a9523f000c705b4b02650a2f4085eecca8380dec31aab1e92a162d",
    "6028d3c0ecc91a9f5641aac347b955c27062cbf056f9d89c6eef859f00918d30",
    "c82a7582078bb9dcad2d3512f9bbfb3c21a3e1cb132d6460b0fc49a56135383e",
    "ee4ae7fdfb4526202dfefd478e862a7b7805dc61af2527267b0e628b7e560510",
    "fa0ba67d7079efdaa06e6c45d35172516c963b0b5d500f87acf326a91c00bb78",
    "f2b13ba858507048120f9cc3b0e473ad9514a317c8ea93d9b28849c7510a7f5e",
    "20d35227bd86fbc56f8417b38d310e41564b7a85eb08713370bbb1a2a475e840",
    "6abe0828c844253c68fccae1da4a96548d7005a9f6d28370d2b087039998e712",
    "f60f3b59ca2a00ba4c47091817b1a34ac5f2dbbc41fd41fdc703a1e15359917e",
    "ae007eda6d8d626e0378d50aa39270153c42a335f0907f64e9aaf2f6fc69e158",
    "52df247ebc44566d5272ee7d014b44312e92000a8aa3f83f8f0d7c4d3c1ac811",
    "1cb30d60a6055e16cb14878d0ad3af7b54ca076ac2bb9ea259adb16e40a77e69",
    "fa9e666237b77635ff060e4d2d5ef4ee46cd02ca7bff86f907d902a477a02917",
    "0a4e59abda48e3b5fd9e96319a72a97323e01fc28cd2ea04fcf8c77ca009ff6a",
    "12ea2687e9569eb391454919f7b92ae250249cf79721ddf646299fb39d2eb342",
    "e88b7f35a279bcafa58cc21b9734a45a30d047d3bdf09376d3b1cfbf3855300b",
    "0e00487721b9bf3d8efd4637d9076c92f1cd1928a04edace9c9335bfb4783a21",
    "785c07a11144b4fd598f15db42d967e164dc145493d683b7c8337a8e739c0e14",
    "bc442d76102f40cdf610fa6e83839a6ba5af7b3f3948bd1e8062007eacbfbd08",
    "cb12cb596fc262b82cc3de08856b1af9fceed01331123890147248a93adc5e0f",
];

const AMOUNT_COMMITMENTS: [&str; 8] = [
    "1851213fa3baf51ea33ac0391213d73de3dfeb981ba2d74626458258c6b59041",
    "003608426796d3c758bde524518d96c6b0d53dd82b5f4878497e0d03e6015d7a",
    "a26f1d09f57deefc7df0ea1f2345d9b0227b029bed76ff707bf3eca1bc0d5e02",
    "1273a0befc15c46ad1dabfb613a976f29527b97e36dfcf05ad50b7005525cd0a",
    "d0cff49e25233be37b57f1ca06d95abb179656d92cc375dc66de536c5e46307e",
    "b8af13a398e8a63d8b280adbb374726d62061453517f48d770dd9a8aa6aa7662",
    "4271e78dfdc4474b200f676a761a6e41178a90ebd33d98564b046b6e203ca955",
    "2cdd3e9a67f9d30ff6fe9a3091018b3a9c81bb127a75cadd03765d072aacd16c",
];

const SLACK_COMMITMENT: &str =
    "705305da30cb656d5f55a1ee3e9201a300ebf2ce46825c3b3291c3c3ebc5f870";

const BLINDING_SUM: &str =
    "46f4e55995e0f4ff64abd8d8984c0a117317e7ba1a3c8e5dad7bcde5c8583703";

/// A proof that payments of 1000 to 8000 stroops add up to less than 100000,
/// made with `extras/spend_proof_vector.py`.
fn stored_proof() -> SpendCapProof {
    SpendCapProof {
        proof_bytes: bytes(&PROOF.concat()),
        amount_commitments: AMOUNT_COMMITMENTS.iter().map(|c| array(c)).collect(),
        slack_commitment: array(SLACK_COMMITMENT),
        blinding_sum: array(BLINDING_SUM),
        cap: 100_000,
        envelope_ids: vec![],
    }
}

#[test]
fn a_stored_proof_of_eight_payments_verifies() {
    let proof = stored_proof();
    assert_eq!(proof.proof_bytes.len(), 928);
    assert_eq!(SpendCapVerifier::verify_proof(&proof), Ok(()));
}

#[test]
fn a_stored_proof_is_bound_to_its_context() {
    assert_eq!(
        SpendCapVerifier::verify_proof_with_context(&stored_proof(), b"nonce"),
        Err(SyncEngineError::ZkProofVerification(
            "Bulletproofs range proof verification failed: Proof verification failed.".to_string()
        ))
    );
}

#[test]
fn a_proof_is_spoilt_by_an_identity_point_only_where_a_point_stands() {
    let proof = stored_proof();
    assert!(!is_spoilt(&proof, &[]));
    assert!(!is_spoilt(&proof, b"nonce"));
    let elements = proof.proof_bytes.len() / 32;
    for i in 0..elements {
        let mut blank = proof.clone();
        blank.proof_bytes[32 * i..32 * i + 32].fill(0);
        let is_scalar = (4..7).contains(&i) || i >= elements - 2;
        assert_eq!(is_spoilt(&blank, &[]), !is_scalar, "element {i}");
    }
}

#[test]
fn a_spoilt_proof_is_rejected() {
    let mut proof = stored_proof();
    proof.proof_bytes[..32].fill(0);
    assert_eq!(
        SpendCapVerifier::verify_proof(&proof),
        Err(SyncEngineError::ZkProofVerification(
            "Bulletproofs range proof verification failed: Proof verification failed.".to_string()
        ))
    );
}

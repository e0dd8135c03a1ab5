use offences::checker::check_equivocation_proof;
use offences::evidence::{EquivocationProof, SignedStatement};
use schnorrkel::{ExpansionMode, Keypair, MiniSecretKey};

fn keypair(seed: u8) -> Keypair {
    MiniSecretKey::from_bytes(&[seed; 32]).unwrap().expand_to_keypair(ExpansionMode::Ed25519)
}

fn signed(kp: &Keypair, slot: u64, content: &[u8]) -> SignedStatement {
    SignedStatement {
        slot,
        signer: kp.public.to_bytes().to_vec(),
        content: content.to_vec(),
        signature: kp.sign_simple(b"substrate", content).to_bytes().to_vec(),
    }
}

fn valid_proof() -> EquivocationProof {
    let kp = keypair(1);
    EquivocationProof {
        slot: 42,
        offender: kp.public.to_bytes().to_vec(),
        first: signed(&kp, 42, b"block A at slot 42"),
        second: signed(&kp, 42, b"block B at slot 42"),
    }
}

#[test]
fn valid_proof_is_accepted() {
    assert!(check_equivocation_proof(&valid_proof()));
}

#[test]
fn mismatched_slot_is_rejected() {
    let kp = keypair(1);
    let mut p = valid_proof();
    p.second = signed(&kp, 43, b"block B at slot 42");
    assert!(!check_equivocation_proof(&p));
}

#[test]
fn proof_slot_differing_from_statements_is_rejected() {
    let mut p = valid_proof();
    p.slot = 41;
    assert!(!check_equivocation_proof(&p));
}

#[test]
fn other_signer_is_rejected() {
    let other = keypair(2);
    let mut p = valid_proof();
    p.second = signed(&other, 42, b"block B at slot 42");
    assert!(!check_equivocation_proof(&p));
}

#[test]
fn bad_signature_is_rejected() {
    let mut p = valid_proof();
    p.first.signature = p.second.signature.clone();
    assert!(!check_equivocation_proof(&p));
}

#[test]
fn identical_contents_are_rejected() {
    let kp = keypair(1);
    let mut p = valid_proof();
    p.second = signed(&kp, 42, b"block A at slot 42");
    assert!(!check_equivocation_proof(&p));
}

#[test]
fn checking_twice_gives_the_same_answer() {
    let p = valid_proof();
    let first = check_equivocation_proof(&p);
    let second = check_equivocation_proof(&p);
    assert_eq!(first, second);
    assert!(first);
}

#[test]
fn decoded_proof_checks_like_the_original() {
    let p = valid_proof();
    let q = EquivocationProof::decode(&p.encode()).unwrap();
    assert!(check_equivocation_proof(&q));
}

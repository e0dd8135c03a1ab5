use offences::evidence::{EquivocationProof, SignedStatement};
use offences::offence::{IdentificationTuple, LookupError, SessionHistory};
use offences::report::{EquivocationError, Pallet, ReportError};
use schnorrkel::{ExpansionMode, Keypair, MiniSecretKey};

fn keypair(seed: u8) -> Keypair {
    MiniSecretKey::from_bytes(&[seed; 32]).unwrap().expand_to_keypair(ExpansionMode::Ed25519)
}

fn signed(kp: &Keypair, slot: u64, content: &[u8]) -> SignedStatement {
    SignedStatement {
        slot,
        signer: kp.public.to_bytes().to_vec(),
        content: content.to_vec(),
        signature: kp.sign_simple(b"substrate", content).to_bytes().to_vec(),
    }
}

fn proof_bytes(kp: &Keypair, second: &[u8]) -> Vec<u8> {
    EquivocationProof {
        slot: 30,
        offender: kp.public.to_bytes().to_vec(),
        first: signed(kp, 30, b"first header"),
        second: signed(kp, 30, second),
    }
    .encode()
}

/// Session 3 has eleven validators; the key of seed 1 belongs to stash 5.
fn history() -> SessionHistory {
    let mut validators = vec![IdentificationTuple {
        authority: keypair(1).public.to_bytes().to_vec(),
        stash: 5,
    }];
    for i in 0..10u8 {
        validators.push(IdentificationTuple { authority: vec![100 + i; 32], stash: 1000 + i as u64 });
    }
    let mut h = SessionHistory::new();
    h.record_session(3, validators).unwrap();
    h
}

#[test]
fn equivocation_one_of_eleven() {
    let h = history();
    let mut pallet = Pallet::new();
    let bytes = proof_bytes(&keypair(1), b"second header");
    let pending = pallet.prepare_equivocation_report(&h, &bytes, 3, &vec![77]).unwrap();
    assert_eq!(pending.slashes.len(), 1);
    assert_eq!(pending.slashes[0].offender, 5);
    assert_eq!(pending.fraction.deconstruct(), 74_380_165);
    assert_eq!(pending.time_slot, 30);
    assert!(pallet.conclude_report(pending, Ok(())).unwrap().is_some());
    assert_eq!(pallet.event_count(), 1);
    let again = pallet.prepare_equivocation_report(&h, &bytes, 3, &vec![77]);
    assert!(matches!(again, Err(EquivocationError::Report(ReportError::DuplicateReport))));
    assert_eq!(pallet.event_count(), 1);
}

#[test]
fn malformed_bytes_are_refused() {
    let h = history();
    let pallet = Pallet::new();
    let mut bytes = proof_bytes(&keypair(1), b"second header");
    bytes.pop();
    let r = pallet.prepare_equivocation_report(&h, &bytes, 3, &vec![]);
    assert!(matches!(r, Err(EquivocationError::Decode(_))));
}

#[test]
fn identical_statements_are_refused() {
    let h = history();
    let pallet = Pallet::new();
    let bytes = proof_bytes(&keypair(1), b"first header");
    let r = pallet.prepare_equivocation_report(&h, &bytes, 3, &vec![]);
    assert!(matches!(r, Err(EquivocationError::InvalidProof)));
}

#[test]
fn unregistered_authority_is_refused() {
    let h = history();
    let pallet = Pallet::new();
    let bytes = proof_bytes(&keypair(2), b"second header");
    let r = pallet.prepare_equivocation_report(&h, &bytes, 3, &vec![]);
    assert!(matches!(r, Err(EquivocationError::Lookup(LookupError::UnknownAuthority))));
    let bytes = proof_bytes(&keypair(1), b"second header");
    let r = pallet.prepare_equivocation_report(&h, &bytes, 4, &vec![]);
    assert!(matches!(r, Err(EquivocationError::Lookup(LookupError::UnknownAuthority))));
}

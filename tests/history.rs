use offences::evidence::{EquivocationProof, SignedStatement};
use offences::offence::{HistoryError, IdentificationTuple, LookupError, SessionHistory};

fn id(a: u8, stash: u64) -> IdentificationTuple {
    IdentificationTuple { authority: vec![a; 32], stash }
}

fn history() -> SessionHistory {
    let mut h = SessionHistory::new();
    h.record_session(1, vec![id(1, 100), id(2, 200), id(3, 300)]).unwrap();
    h.record_session(4, vec![id(1, 101), id(4, 400)]).unwrap();
    h
}

#[test]
fn lookup_uses_the_session_of_the_offence() {
    let h = history();
    assert_eq!(h.lookup_full_identification(&[1; 32], 1), Some(100));
    assert_eq!(h.lookup_full_identification(&[1; 32], 4), Some(101));
    assert_eq!(h.lookup_full_identification(&[2; 32], 4), None);
    assert_eq!(h.lookup_full_identification(&[2; 32], 2), None);
}

#[test]
fn validator_set_count_by_session() {
    let h = history();
    assert_eq!(h.validator_set_count(1), 3);
    assert_eq!(h.validator_set_count(4), 2);
    assert_eq!(h.validator_set_count(3), 0);
}

#[test]
fn sessions_must_increase() {
    let mut h = history();
    assert_eq!(h.record_session(4, vec![]), Err(HistoryError::SessionOutOfOrder));
    assert_eq!(h.record_session(2, vec![]), Err(HistoryError::SessionOutOfOrder));
    assert_eq!(h.record_session(5, vec![]), Ok(()));
}

#[test]
fn unknown_authority_is_an_error() {
    let h = history();
    assert!(matches!(h.resolve_offender(&[9; 32], 1), Err(LookupError::UnknownAuthority)));
    let t = h.resolve_offender(&[3; 32], 1).unwrap();
    assert_eq!(t.stash, 300);
    assert_eq!(t.authority, vec![3; 32]);
}

#[test]
fn offence_from_proof_resolves_the_offender() {
    let h = history();
    let st = |c: &[u8]| SignedStatement {
        slot: 77,
        signer: vec![2; 32],
        content: c.to_vec(),
        signature: vec![0; 64],
    };
    let p = EquivocationProof { slot: 77, offender: vec![2; 32], first: st(b"a"), second: st(b"b") };
    let o = h.offence_from_proof(&p, 1).unwrap();
    assert_eq!(o.offender, 200);
    assert_eq!(o.slot, 77);
    assert_eq!(o.session_index, 1);
    assert_eq!(o.validator_set_count, 3);
    assert!(matches!(h.offence_from_proof(&p, 4), Err(LookupError::UnknownAuthority)));
}

use offences::evidence::{EquivocationProof, SignedStatement};

fn statement(slot: u64, signer: u8, content: &[u8], sig: u8) -> SignedStatement {
    SignedStatement {
        slot,
        signer: vec![signer; 32],
        content: content.to_vec(),
        signature: vec![sig; 64],
    }
}

fn sample() -> EquivocationProof {
    EquivocationProof {
        slot: 0x0102_0304_0506_0708,
        offender: vec![7; 32],
        first: statement(0x0102_0304_0506_0708, 7, b"header one", 1),
        second: statement(0x0102_0304_0506_0708, 7, b"header two!", 2),
    }
}

fn same(a: &EquivocationProof, b: &EquivocationProof) -> bool {
    let st = |x: &SignedStatement, y: &SignedStatement| {
        x.slot == y.slot && x.signer == y.signer && x.content == y.content && x.signature == y.signature
    };
    a.slot == b.slot && a.offender == b.offender && st(&a.first, &b.first) && st(&a.second, &b.second)
}

#[test]
fn round_trip_gives_back_the_proof() {
    let p = sample();
    let bytes = p.encode();
    let q = EquivocationProof::decode(&bytes).expect("decodes");
    assert!(same(&p, &q));
}

#[test]
fn round_trip_with_empty_contents() {
    let mut p = sample();
    p.first.content = vec![];
    p.second.content = vec![];
    let q = EquivocationProof::decode(&p.encode()).expect("decodes");
    assert!(same(&p, &q));
}

#[test]
fn encoding_layout() {
    let p = sample();
    let bytes = p.encode();
    assert_eq!(bytes.len(), 40 + (109 + 10) + (109 + 11));
    assert_eq!(&bytes[0..8], &[8, 7, 6, 5, 4, 3, 2, 1]);
    assert_eq!(&bytes[8..40], &[7u8; 32][..]);
    // first statement: slot, signer, length 10, content, tag, signature
    assert_eq!(&bytes[40..48], &[8, 7, 6, 5, 4, 3, 2, 1]);
    assert_eq!(&bytes[80..84], &[10, 0, 0, 0]);
    assert_eq!(&bytes[84..94], b"header one");
    assert_eq!(bytes[94], 0);
    assert_eq!(&bytes[95..159], &[1u8; 64][..]);
}

#[test]
fn decode_rejects_truncated_input() {
    let bytes = sample().encode();
    for cut in [0, 1, 39, 40, 100, bytes.len() - 1] {
        assert!(EquivocationProof::decode(&bytes[..cut]).is_err());
    }
}

#[test]
fn decode_rejects_trailing_bytes() {
    let mut bytes = sample().encode();
    bytes.push(0);
    assert!(EquivocationProof::decode(&bytes).is_err());
}

#[test]
fn decode_rejects_mismatched_length_field() {
    let mut bytes = sample().encode();
    bytes[80] = 200;
    assert!(EquivocationProof::decode(&bytes).is_err());
}

#[test]
fn decode_rejects_unknown_signature_scheme() {
    let mut bytes = sample().encode();
    bytes[94] = 1;
    assert!(EquivocationProof::decode(&bytes).is_err());
}

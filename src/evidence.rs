//! Equivocation proofs and their canonical byte encoding.
//!
//! A proof is laid out as the slot (8 bytes, little-endian), the offender's
//! authority key (32 bytes), then the two signed statements. A statement is its
//! slot (8 bytes), its signer's key (32 bytes), the length of its content
//! (4 bytes, little-endian), the content, a one-byte signature scheme tag (only
//! sr25519, tag 0, is known) and the 64-byte signature.
use vstd::prelude::*;
use crate::bytes::{
    copy_range, le_u32, le_u64, lemma_u32_bytes_round_trip, lemma_u32_round_trip,
    lemma_u64_bytes_round_trip, lemma_u64_round_trip, push_all, push_u32, push_u64, read_u32,
    read_u64,
};

verus! {

/// Length of an authority's public key.
pub const AUTHORITY_ID_LEN: usize = 32;

/// Length of an sr25519 signature.
pub const SIGNATURE_LEN: usize = 64;

/// Tag of the sr25519 signature scheme in the encoding.
pub const SR25519_TAG: u8 = 0;

/// A statement (such as a block header) signed by an authority for a slot.
pub struct SignedStatement {
    pub slot: u64,
    pub signer: Vec<u8>,
    pub content: Vec<u8>,
    pub signature: Vec<u8>,
}

/// The value of a [`SignedStatement`].
pub struct StatementView {
    pub slot: u64,
    pub signer: Seq<u8>,
    pub content: Seq<u8>,
    pub signature: Seq<u8>,
}

impl StatementView {
    /// Key and signature have their fixed lengths; the content length fits the
    /// four-byte length field.
    pub open spec fn wf(&self) -> bool {
        &&& self.signer.len() == AUTHORITY_ID_LEN
        &&& self.signature.len() == SIGNATURE_LEN
        &&& self.content.len() <= u32::MAX
    }
}

impl View for SignedStatement {
    type V = StatementView;

    open spec fn view(&self) -> StatementView {
        StatementView {
            slot: self.slot,
            signer: self.signer@,
            content: self.content@,
            signature: self.signature@,
        }
    }
}

/// Two statements that one authority signed for one slot.
pub struct EquivocationProof {
    pub slot: u64,
    pub offender: Vec<u8>,
    pub first: SignedStatement,
    pub second: SignedStatement,
}

/// The value of an [`EquivocationProof`].
pub struct ProofView {
    pub slot: u64,
    pub offender: Seq<u8>,
    pub first: StatementView,
    pub second: StatementView,
}

impl ProofView {
    pub open spec fn wf(&self) -> bool {
        &&& self.offender.len() == AUTHORITY_ID_LEN
        &&& self.first.wf()
        &&& self.second.wf()
    }
}

impl View for EquivocationProof {
    type V = ProofView;

    open spec fn view(&self) -> ProofView {
        ProofView {
            slot: self.slot,
            offender: self.offender@,
            first: self.first@,
            second: self.second@,
        }
    }
}

/// The proof bytes could not be read as a proof: they end early, a length field
/// disagrees with what follows, a signature scheme tag is unknown, or bytes are
/// left over.
#[derive(Clone, Copy, Debug, PartialEq, Eq, Structural)]
pub struct DecodeError {}

/// The encoding of a statement.
pub open spec fn statement_bytes(s: StatementView) -> Seq<u8> {
    le_u64(s.slot) + s.signer + le_u32(s.content.len() as u32) + s.content + seq![SR25519_TAG]
        + s.signature
}

/// The encoding of a proof.
pub open spec fn proof_bytes(p: ProofView) -> Seq<u8> {
    le_u64(p.slot) + p.offender + statement_bytes(p.first) + statement_bytes(p.second)
}

/// Whether `a` begins `t`.
pub open spec fn is_prefix(a: Seq<u8>, t: Seq<u8>) -> bool {
    a.len() <= t.len() && t.subrange(0, a.len() as int) == a
}

/// The valid proof whose encoding is `b`, if there is one.
pub open spec fn decoded(b: Seq<u8>) -> Option<ProofView> {
    if exists|p: ProofView| p.wf() && proof_bytes(p) == b {
        Some(choose|p: ProofView| p.wf() && proof_bytes(p) == b)
    } else {
        None
    }
}

proof fn lemma_statement_layout(v: StatementView)
    requires
        v.wf(),
    ensures
        statement_bytes(v).len() == 109 + v.content.len(),
        statement_bytes(v).subrange(0, 8) == le_u64(v.slot),
        statement_bytes(v).subrange(8, 40) == v.signer,
        statement_bytes(v).subrange(40, 44) == le_u32(v.content.len() as u32),
        statement_bytes(v).subrange(44, 44 + v.content.len() as int) == v.content,
        statement_bytes(v)[44 + v.content.len() as int] == SR25519_TAG,
        statement_bytes(v).subrange(45 + v.content.len() as int, 109 + v.content.len() as int)
            == v.signature,
{
    let s = statement_bytes(v);
    let n = v.content.len() as int;
    assert(s.subrange(0, 8) =~= le_u64(v.slot));
    assert(s.subrange(8, 40) =~= v.signer);
    assert(s.subrange(40, 44) =~= le_u32(n as u32));
    assert(s.subrange(44, 44 + n) =~= v.content);
    assert(s.subrange(45 + n, 109 + n) =~= v.signature);
}

/// What a prefix of `t` holds at `[i, j)` is what `t` holds there.
proof fn lemma_prefix_range(a: Seq<u8>, t: Seq<u8>, i: int, j: int)
    requires
        is_prefix(a, t),
        0 <= i <= j <= a.len(),
    ensures
        a.subrange(i, j) == t.subrange(i, j),
{
    assert(a.subrange(i, j) =~= t.subrange(i, j)) by {
        assert forall|k: int| 0 <= k < j - i implies a.subrange(i, j)[k] == t.subrange(i, j)[k] by {
            assert(t.subrange(0, a.len() as int)[i + k] == t[i + k]);
        }
    }
}

/// At most one valid statement's encoding begins a byte string.
proof fn lemma_statement_prefix_unique(a: StatementView, c: StatementView, t: Seq<u8>)
    requires
        a.wf(),
        c.wf(),
        is_prefix(statement_bytes(a), t),
        is_prefix(statement_bytes(c), t),
    ensures
        a == c,
{
    let sa = statement_bytes(a);
    let sc = statement_bytes(c);
    lemma_statement_layout(a);
    lemma_statement_layout(c);
    lemma_prefix_range(sa, t, 0, 8);
    lemma_prefix_range(sc, t, 0, 8);
    lemma_u64_round_trip(a.slot);
    lemma_u64_round_trip(c.slot);
    lemma_prefix_range(sa, t, 8, 40);
    lemma_prefix_range(sc, t, 8, 40);
    lemma_prefix_range(sa, t, 40, 44);
    lemma_prefix_range(sc, t, 40, 44);
    lemma_u32_round_trip(a.content.len() as u32);
    lemma_u32_round_trip(c.content.len() as u32);
    let n = a.content.len() as int;
    assert(c.content.len() == n);
    lemma_prefix_range(sa, t, 44, 44 + n);
    lemma_prefix_range(sc, t, 44, 44 + n);
    lemma_prefix_range(sa, t, 45 + n, 109 + n);
    lemma_prefix_range(sc, t, 45 + n, 109 + n);
}

/// Encoding is injective on valid proofs.
proof fn lemma_proof_bytes_injective(p: ProofView, q: ProofView)
    requires
        p.wf(),
        q.wf(),
        proof_bytes(p) == proof_bytes(q),
    ensures
        p == q,
{
    let t = proof_bytes(p);
    let pf = statement_bytes(p.first);
    let qf = statement_bytes(q.first);
    assert(t.subrange(0, 8) =~= le_u64(p.slot));
    assert(t.subrange(0, 8) =~= le_u64(q.slot));
    lemma_u64_round_trip(p.slot);
    lemma_u64_round_trip(q.slot);
    assert(t.subrange(8, 40) =~= p.offender);
    assert(t.subrange(8, 40) =~= q.offender);
    let rest = t.subrange(40, t.len() as int);
    assert(rest.subrange(0, pf.len() as int) =~= pf);
    assert(rest.subrange(0, qf.len() as int) =~= qf);
    lemma_statement_prefix_unique(p.first, q.first, rest);
    let tail = t.subrange(40 + pf.len() as int, t.len() as int);
    assert(tail.subrange(0, statement_bytes(p.second).len() as int) =~= statement_bytes(p.second));
    assert(tail.subrange(0, statement_bytes(q.second).len() as int) =~= statement_bytes(q.second));
    lemma_statement_prefix_unique(p.second, q.second, tail);
}

/// Decoding the encoding of a valid proof gives that proof back.
pub proof fn lemma_round_trip(p: ProofView)
    requires
        p.wf(),
    ensures
        decoded(proof_bytes(p)) == Some(p),
{
    let q = choose|q: ProofView| q.wf() && proof_bytes(q) == proof_bytes(p);
    lemma_proof_bytes_injective(p, q);
}

impl SignedStatement {
    /// Appends the encoding of this statement.
    pub fn encode_to(&self, out: &mut Vec<u8>)
        requires
            self@.wf(),
        ensures
            final(out)@ == old(out)@ + statement_bytes(self@),
    {
        push_u64(out, self.slot);
        push_all(out, self.signer.as_slice());
        push_u32(out, self.content.len() as u32);
        push_all(out, self.content.as_slice());
        out.push(SR25519_TAG);
        push_all(out, self.signature.as_slice());
        assert(out@ =~= old(out)@ + statement_bytes(self@));
    }

    /// Reads a statement that begins at `pos`, and returns it with the position
    /// after it; fails when no valid statement's encoding begins there.
    pub fn decode_at(b: &[u8], pos: usize) -> (r: Result<(SignedStatement, usize), DecodeError>)
        requires
            pos <= b@.len(),
        ensures
            match r {
                Ok((s, end)) => {
                    &&& s@.wf()
                    &&& pos <= end <= b@.len()
                    &&& b@.subrange(pos as int, end as int) == statement_bytes(s@)
                },
                Err(_) => forall|v: StatementView|
                    v.wf() ==> !is_prefix(statement_bytes(v), b@.subrange(pos as int, b@.len() as int)),
            },
    {
        let ghost rest = b@.subrange(pos as int, b@.len() as int);
        let avail = b.len() - pos;
        if avail < 44 {
            assert forall|v: StatementView| v.wf() implies !is_prefix(statement_bytes(v), rest) by {
                lemma_statement_layout(v);
            }
            return Err(DecodeError {});
        }
        let slot = read_u64(b, pos);
        let signer = copy_range(b, pos + 8, AUTHORITY_ID_LEN);
        let len32 = read_u32(b, pos + 40);
        let len = len32 as usize;
        proof {
            assert(b@.subrange(pos + 40, pos + 44) =~= rest.subrange(40, 44));
        }
        if avail - 44 < len || avail - 44 - len < 65 {
            assert forall|v: StatementView| v.wf() implies !is_prefix(statement_bytes(v), rest) by {
                lemma_statement_layout(v);
                if is_prefix(statement_bytes(v), rest) {
                    lemma_prefix_range(statement_bytes(v), rest, 40, 44);
                    lemma_u32_round_trip(v.content.len() as u32);
                }
            }
            return Err(DecodeError {});
        }
        let content = copy_range(b, pos + 44, len);
        if b[pos + 44 + len] != SR25519_TAG {
            assert forall|v: StatementView| v.wf() implies !is_prefix(statement_bytes(v), rest) by {
                lemma_statement_layout(v);
                if is_prefix(statement_bytes(v), rest) {
                    lemma_prefix_range(statement_bytes(v), rest, 40, 44);
                    lemma_u32_round_trip(v.content.len() as u32);
                    assert(rest[44 + len as int] == b@[pos + 44 + len]);
                    assert(statement_bytes(v)[44 + len as int] == rest.subrange(
                        0,
                        statement_bytes(v).len() as int,
                    )[44 + len as int]);
                }
            }
            return Err(DecodeError {});
        }
        let signature = copy_range(b, pos + 45 + len, SIGNATURE_LEN);
        let s = SignedStatement { slot, signer, content, signature };
        let end = pos + 109 + len;
        proof {
            lemma_u64_bytes_round_trip(b@.subrange(pos as int, pos + 8));
            lemma_u32_bytes_round_trip(b@.subrange(pos + 40, pos + 44));
            lemma_statement_layout(s@);
            let sb = statement_bytes(s@);
            let got = b@.subrange(pos as int, end as int);
            assert forall|k: int| 0 <= k < sb.len() implies got[k] == sb[k] by {
                if k < 8 {
                    assert(sb[k] == sb.subrange(0, 8)[k]);
                    assert(b@.subrange(pos as int, pos + 8)[k] == got[k]);
                } else if k < 40 {
                    assert(sb[k] == sb.subrange(8, 40)[k - 8]);
                } else if k < 44 {
                    assert(sb[k] == sb.subrange(40, 44)[k - 40]);
                    assert(b@.subrange(pos + 40, pos + 44)[k - 40] == got[k]);
                } else if k < 44 + len {
                    assert(sb[k] == sb.subrange(44, 44 + len)[k - 44]);
                } else if k == 44 + len {
                } else {
                    assert(sb[k] == sb.subrange(45 + len, 109 + len)[k - 45 - len]);
                }
            }
            assert(got =~= sb);
        }
        Ok((s, end))
    }
}

impl EquivocationProof {
    /// The canonical encoding of this proof.
    pub fn encode(&self) -> (r: Vec<u8>)
        requires
            self@.wf(),
        ensures
            r@ == proof_bytes(self@),
    {
        let mut out: Vec<u8> = Vec::new();
        push_u64(&mut out, self.slot);
        push_all(&mut out, self.offender.as_slice());
        self.first.encode_to(&mut out);
        self.second.encode_to(&mut out);
        assert(out@ =~= proof_bytes(self@));
        out
    }

    /// Reads a proof from its canonical encoding: succeeds exactly when `b` is
    /// the encoding of a valid proof, and then returns that proof.
    pub fn decode(b: &[u8]) -> (r: Result<EquivocationProof, DecodeError>)
        ensures
            r is Ok <==> decoded(b@) is Some,
            r matches Ok(p) ==> p@.wf() && decoded(b@) == Some(p@),
    {
        if b.len() < 40 {
            proof {
                assert forall|v: ProofView| v.wf() implies proof_bytes(v) != b@ by {
                    lemma_statement_layout(v.first);
                }
            }
            return Err(DecodeError {});
        }
        let slot = read_u64(b, 0);
        let offender = copy_range(b, 8, AUTHORITY_ID_LEN);
        let (first, e1) = match SignedStatement::decode_at(b, 40) {
            Ok(x) => x,
            Err(e) => {
                proof {
                    lemma_no_proof_first_fails(b@);
                }
                return Err(e);
            },
        };
        let (second, e2) = match SignedStatement::decode_at(b, e1) {
            Ok(x) => x,
            Err(e) => {
                proof {
                    lemma_no_proof_second_fails(b@, first@, e1 as int);
                }
                return Err(e);
            },
        };
        if e2 != b.len() {
            proof {
                lemma_no_proof_trailing(b@, first@, e1 as int, second@, e2 as int);
            }
            return Err(DecodeError {});
        }
        let p = EquivocationProof { slot, offender, first, second };
        proof {
            lemma_decoded_parts(b@, p@, e1 as int);
        }
        Ok(p)
    }
}

proof fn lemma_no_proof_first_fails(b: Seq<u8>)
    requires
        b.len() >= 40,
        forall|v: StatementView|
            v.wf() ==> !is_prefix(statement_bytes(v), b.subrange(40, b.len() as int)),
    ensures
        forall|v: ProofView| v.wf() ==> proof_bytes(v) != b,
{
    let rest = b.subrange(40, b.len() as int);
    assert forall|v: ProofView| v.wf() implies proof_bytes(v) != b by {
        if proof_bytes(v) == b {
            assert(rest.subrange(0, statement_bytes(v.first).len() as int) =~= statement_bytes(
                v.first,
            ));
        }
    }
}

proof fn lemma_no_proof_second_fails(b: Seq<u8>, first: StatementView, e1: int)
    requires
        first.wf(),
        40 <= e1 <= b.len(),
        b.subrange(40, e1) == statement_bytes(first),
        forall|v: StatementView|
            v.wf() ==> !is_prefix(statement_bytes(v), b.subrange(e1, b.len() as int)),
    ensures
        forall|v: ProofView| v.wf() ==> proof_bytes(v) != b,
{
    let rest = b.subrange(40, b.len() as int);
    let rest2 = b.subrange(e1, b.len() as int);
    assert forall|v: ProofView| v.wf() implies proof_bytes(v) != b by {
        if proof_bytes(v) == b {
            let fb = statement_bytes(v.first);
            assert(rest.subrange(0, fb.len() as int) =~= fb);
            assert(rest.subrange(0, e1 - 40) =~= statement_bytes(first));
            lemma_statement_prefix_unique(v.first, first, rest);
            assert(rest2.subrange(0, statement_bytes(v.second).len() as int) =~= statement_bytes(
                v.second,
            ));
        }
    }
}

proof fn lemma_no_proof_trailing(
    b: Seq<u8>,
    first: StatementView,
    e1: int,
    second: StatementView,
    e2: int,
)
    requires
        first.wf(),
        second.wf(),
        40 <= e1 <= e2 < b.len(),
        b.subrange(40, e1) == statement_bytes(first),
        b.subrange(e1, e2) == statement_bytes(second),
    ensures
        forall|v: ProofView| v.wf() ==> proof_bytes(v) != b,
{
    let rest = b.subrange(40, b.len() as int);
    let rest2 = b.subrange(e1, b.len() as int);
    assert forall|v: ProofView| v.wf() implies proof_bytes(v) != b by {
        if proof_bytes(v) == b {
            let fb = statement_bytes(v.first);
            assert(rest.subrange(0, fb.len() as int) =~= fb);
            assert(rest.subrange(0, e1 - 40) =~= statement_bytes(first));
            lemma_statement_prefix_unique(v.first, first, rest);
            let sb = statement_bytes(v.second);
            assert(rest2.subrange(0, sb.len() as int) =~= sb);
            assert(rest2.subrange(0, e2 - e1) =~= statement_bytes(second));
            lemma_statement_prefix_unique(v.second, second, rest2);
        }
    }
}

proof fn lemma_decoded_parts(b: Seq<u8>, p: ProofView, e1: int)
    requires
        p.wf(),
        b.len() >= 40,
        40 <= e1 <= b.len(),
        p.slot == crate::bytes::u64_of_le(b.subrange(0, 8)),
        p.offender == b.subrange(8, 40),
        b.subrange(40, e1) == statement_bytes(p.first),
        b.subrange(e1, b.len() as int) == statement_bytes(p.second),
    ensures
        decoded(b) == Some(p),
{
    lemma_u64_bytes_round_trip(b.subrange(0, 8));
    assert(b =~= b.subrange(0, 8) + b.subrange(8, 40) + b.subrange(40, e1) + b.subrange(
        e1,
        b.len() as int,
    ));
    assert(proof_bytes(p) == b);
    let q = choose|q: ProofView| q.wf() && proof_bytes(q) == b;
    lemma_proof_bytes_injective(p, q);
}

} // verus!

//! Offences, and the session history that names who committed them.
use vstd::prelude::*;
use crate::bytes::bytes_equal;
use crate::evidence::EquivocationProof;
use crate::perbill::{severity, slash_fraction, Perbill};

verus! {

/// A staking account: the stash that an offender's exposure is bonded from.
pub type AccountId = u64;

/// The index of a session of the validator set.
pub type SessionIndex = u32;

/// Which misbehaviour an offence records.
#[derive(Clone, Copy, Debug, PartialEq, Eq, Structural)]
pub enum OffenceKind {
    /// Two blocks signed for one slot.
    BabeEquivocation,
    /// Two votes signed for one finality round.
    GrandpaEquivocation,
}

/// One instance of misbehaviour: of which kind, when, and by whom.
pub struct Offence {
    pub kind: OffenceKind,
    pub time_slot: u64,
    pub session_index: SessionIndex,
    pub validator_set_count: u32,
    pub offenders: Vec<AccountId>,
}

/// The value of an [`Offence`].
pub struct OffenceView {
    pub kind: OffenceKind,
    pub time_slot: u64,
    pub session_index: SessionIndex,
    pub validator_set_count: u32,
    pub offenders: Seq<AccountId>,
}

impl View for Offence {
    type V = OffenceView;

    open spec fn view(&self) -> OffenceView {
        OffenceView {
            kind: self.kind,
            time_slot: self.time_slot,
            session_index: self.session_index,
            validator_set_count: self.validator_set_count,
            offenders: self.offenders@,
        }
    }
}

impl OffenceView {
    /// A reported offence names at least one offender, and their number fits
    /// the severity formula's count.
    pub open spec fn wf(&self) -> bool {
        0 < self.offenders.len() <= u32::MAX
    }
}

/// An equivocation offence: one offender, at one slot.
pub struct MockOffence {
    /// The slot in which the offender equivocated.
    pub slot: u64,
    /// The session in which that slot fell.
    pub session_index: SessionIndex,
    /// The size of the validator set in that session.
    pub validator_set_count: u32,
    /// The offender.
    pub offender: AccountId,
}

impl MockOffence {
    pub fn kind(&self) -> (r: OffenceKind)
        ensures
            r == OffenceKind::BabeEquivocation,
    {
        OffenceKind::BabeEquivocation
    }

    pub fn offenders(&self) -> (r: Vec<AccountId>)
        ensures
            r@ == seq![self.offender],
    {
        let mut v: Vec<AccountId> = Vec::new();
        v.push(self.offender);
        v
    }

    pub fn session_index(&self) -> (r: SessionIndex)
        ensures
            r == self.session_index,
    {
        self.session_index
    }

    pub fn validator_set_count(&self) -> (r: u32)
        ensures
            r == self.validator_set_count,
    {
        self.validator_set_count
    }

    pub fn time_slot(&self) -> (r: u64)
        ensures
            r == self.slot,
    {
        self.slot
    }

    /// The severity of an equivocation: `min((3k / n)^2, 1)`.
    pub fn slash_fraction(offenders_count: u32, validator_set_count: u32) -> (r: Perbill)
        requires
            validator_set_count > 0,
        ensures
            r.wf(),
            r.parts == severity(offenders_count as nat, validator_set_count as nat),
    {
        slash_fraction(offenders_count, validator_set_count)
    }

    /// This offence as a generic offence record.
    pub fn to_offence(&self) -> (r: Offence)
        ensures
            r@ == (OffenceView {
                kind: OffenceKind::BabeEquivocation,
                time_slot: self.slot,
                session_index: self.session_index,
                validator_set_count: self.validator_set_count,
                offenders: seq![self.offender],
            }),
            r@.wf(),
    {
        Offence {
            kind: self.kind(),
            time_slot: self.slot,
            session_index: self.session_index,
            validator_set_count: self.validator_set_count,
            offenders: self.offenders(),
        }
    }
}

/// An authority key and the stash account it identified in some session.
pub struct IdentificationTuple {
    pub authority: Vec<u8>,
    pub stash: AccountId,
}

impl View for IdentificationTuple {
    type V = (Seq<u8>, AccountId);

    open spec fn view(&self) -> (Seq<u8>, AccountId) {
        (self.authority@, self.stash)
    }
}

/// The validator set of one session.
pub struct SessionRecord {
    pub session_index: SessionIndex,
    pub validators: Vec<IdentificationTuple>,
}

/// The value of a [`SessionRecord`].
pub type SessionView = (SessionIndex, Seq<(Seq<u8>, AccountId)>);

impl View for SessionRecord {
    type V = SessionView;

    open spec fn view(&self) -> SessionView {
        (self.session_index, self.validators@.map_values(|e: IdentificationTuple| e@))
    }
}

/// The session history could not take a record.
#[derive(Clone, Copy, Debug, PartialEq, Eq, Structural)]
pub enum HistoryError {
    /// The session is not later than the last one recorded.
    SessionOutOfOrder,
}

/// An offender could not be identified.
#[derive(Clone, Copy, Debug, PartialEq, Eq, Structural)]
pub enum LookupError {
    /// The session is not in the history, or its validator set had no such key.
    UnknownAuthority,
}

/// Validator sets by session, oldest first, so that an authority key is
/// resolved against the set of the session in which it acted.
pub struct SessionHistory {
    sessions: Vec<SessionRecord>,
}

/// Session indices are strictly increasing.
pub open spec fn sessions_ordered(h: Seq<SessionView>) -> bool {
    forall|i: int, j: int| 0 <= i < j < h.len() ==> h[i].0 < h[j].0
}

/// The validator set recorded for session `s`.
pub open spec fn validators_of(h: Seq<SessionView>, s: SessionIndex) -> Option<
    Seq<(Seq<u8>, AccountId)>,
> {
    if exists|i: int| 0 <= i < h.len() && h[i].0 == s {
        Some(h[choose|i: int| 0 <= i < h.len() && h[i].0 == s].1)
    } else {
        None
    }
}

/// The stash of the first entry for `authority` in a validator set.
pub open spec fn stash_of(vs: Seq<(Seq<u8>, AccountId)>, authority: Seq<u8>) -> Option<AccountId> {
    if exists|j: int| 0 <= j < vs.len() && vs[j].0 == authority {
        let j = choose|j: int|
            0 <= j < vs.len() && vs[j].0 == authority && forall|k: int|
                0 <= k < j ==> vs[k].0 != authority;
        Some(vs[j].1)
    } else {
        None
    }
}

/// The stash that `authority` identified in session `s`.
pub open spec fn identification(h: Seq<SessionView>, authority: Seq<u8>, s: SessionIndex) -> Option<
    AccountId,
> {
    match validators_of(h, s) {
        Some(vs) => stash_of(vs, authority),
        None => None,
    }
}

/// The size of the validator set of session `s`; zero for an unknown session.
pub open spec fn set_size(h: Seq<SessionView>, s: SessionIndex) -> nat {
    match validators_of(h, s) {
        Some(vs) => vs.len(),
        None => 0,
    }
}

impl View for SessionHistory {
    type V = Seq<SessionView>;

    closed spec fn view(&self) -> Seq<SessionView> {
        self.sessions@.map_values(|r: SessionRecord| r@)
    }
}

impl SessionHistory {
    pub open spec fn wf(&self) -> bool {
        &&& sessions_ordered(self@)
        &&& forall|i: int| 0 <= i < self@.len() ==> self@[i].1.len() <= u32::MAX
    }

    pub fn new() -> (r: SessionHistory)
        ensures
            r.wf(),
            r@ == Seq::<SessionView>::empty(),
    {
        let r = SessionHistory { sessions: Vec::new() };
        assert(r@ =~= Seq::<SessionView>::empty());
        r
    }

    /// Appends the validator set of a session later than every recorded one.
    pub fn record_session(
        &mut self,
        session_index: SessionIndex,
        validators: Vec<IdentificationTuple>,
    ) -> (r: Result<(), HistoryError>)
        requires
            old(self).wf(),
            validators@.len() <= u32::MAX,
        ensures
            final(self).wf(),
            r is Ok <==> (old(self)@.len() == 0 || old(self)@.last().0 < session_index),
            r is Ok ==> final(self)@ == old(self)@.push(
                (session_index, validators@.map_values(|e: IdentificationTuple| e@)),
            ),
            r is Err ==> final(self)@ == old(self)@,
    {
        let n = self.sessions.len();
        if n > 0 && self.sessions[n - 1].session_index >= session_index {
            return Err(HistoryError::SessionOutOfOrder);
        }
        let record = SessionRecord { session_index, validators };
        let ghost rv = record@;
        self.sessions.push(record);
        assert(self@ =~= old(self)@.push(rv));
        assert(sessions_ordered(self@)) by {
            assert forall|i: int, j: int| 0 <= i < j < self@.len() implies self@[i].0
                < self@[j].0 by {
                if j == self@.len() - 1 && i < j - 1 {
                    assert(old(self)@[i].0 < old(self)@[j - 1].0);
                }
            }
        }
        Ok(())
    }

    /// Where session `s` stands, if it is recorded.
    fn find_session(&self, s: SessionIndex) -> (r: Option<usize>)
        requires
            self.wf(),
        ensures
            r is None ==> validators_of(self@, s) is None,
            r matches Some(i) ==> i < self@.len() && validators_of(self@, s) == Some(
                self@[i as int].1,
            ),
    {
        let mut i: usize = 0;
        while i < self.sessions.len()
            invariant
                i <= self.sessions@.len(),
                self.wf(),
                self@.len() == self.sessions@.len(),
                forall|k: int| 0 <= k < i ==> self@[k].0 != s,
            decreases self.sessions@.len() - i,
        {
            if self.sessions[i].session_index == s {
                proof {
                    assert(self@[i as int].0 == s);
                    let c = choose|c: int| 0 <= c < self@.len() && self@[c].0 == s;
                    if c != i {
                        if c < i {
                            assert(self@[c].0 < self@[i as int].0);
                        } else {
                            assert(self@[i as int].0 < self@[c].0);
                        }
                    }
                }
                return Some(i);
            }
            i = i + 1;
        }
        None
    }

    /// The number of validators in session `s`, zero if it is not recorded.
    pub fn validator_set_count(&self, s: SessionIndex) -> (r: u32)
        requires
            self.wf(),
        ensures
            r == set_size(self@, s),
    {
        match self.find_session(s) {
            Some(i) => {
                proof {
                    assert(self.sessions@[i as int]@.1.len() == self.sessions@[i as int].validators@.len());
                }
                self.sessions[i].validators.len() as u32
            },
            None => 0,
        }
    }

    /// The stash that `authority` identified in session `s`.
    pub fn lookup_full_identification(&self, authority: &[u8], s: SessionIndex) -> (r: Option<
        AccountId,
    >)
        requires
            self.wf(),
        ensures
            r == identification(self@, authority@, s),
    {
        let i = match self.find_session(s) {
            Some(i) => i,
            None => {
                return None;
            },
        };
        let validators = &self.sessions[i].validators;
        let ghost vs = self@[i as int].1;
        assert(vs == validators@.map_values(|e: IdentificationTuple| e@));
        assert(validators_of(self@, s) == Some(vs));
        let mut j: usize = 0;
        while j < validators.len()
            invariant
                j <= validators@.len(),
                vs == validators@.map_values(|e: IdentificationTuple| e@),
                validators_of(self@, s) == Some(vs),
                forall|k: int| 0 <= k < j ==> vs[k].0 != authority@,
            decreases validators@.len() - j,
        {
            assert(vs[j as int] == validators@[j as int]@);
            if bytes_equal(validators[j].authority.as_slice(), authority) {
                proof {
                    assert(vs[j as int].0 == authority@);
                    assert(forall|k: int| 0 <= k < j ==> vs[k].0 != authority@);
                    let c = choose|c: int|
                        0 <= c < vs.len() && vs[c].0 == authority@ && forall|k: int|
                            0 <= k < c ==> vs[k].0 != authority@;
                    if c < j {
                    } else if c > j {
                        assert(vs[j as int].0 != authority@);
                    }
                    assert(c == j);
                    assert(stash_of(vs, authority@) == Some(vs[j as int].1));
                }
                return Some(validators[j].stash);
            }
            j = j + 1;
        }
        None
    }

    /// Resolves the authority that acted in session `s` to its identification.
    pub fn resolve_offender(&self, authority: &[u8], s: SessionIndex) -> (r: Result<
        IdentificationTuple,
        LookupError,
    >)
        requires
            self.wf(),
        ensures
            r is Err <==> identification(self@, authority@, s) is None,
            r matches Ok(t) ==> t@ == (authority@, identification(self@, authority@, s)->0),
    {
        match self.lookup_full_identification(authority, s) {
            Some(stash) => {
                let mut a: Vec<u8> = Vec::new();
                crate::bytes::push_all(&mut a, authority);
                assert(a@ =~= authority@);
                Ok(IdentificationTuple { authority: a, stash })
            },
            None => Err(LookupError::UnknownAuthority),
        }
    }

    /// The offence that a proof of equivocation in session `s` shows: its
    /// offender resolved in that session, with that session's validator count.
    pub fn offence_from_proof(&self, proof: &EquivocationProof, s: SessionIndex) -> (r: Result<
        MockOffence,
        LookupError,
    >)
        requires
            self.wf(),
        ensures
            r is Err <==> identification(self@, proof@.offender, s) is None,
            r matches Ok(o) ==> {
                &&& o.slot == proof.slot
                &&& o.session_index == s
                &&& o.validator_set_count == set_size(self@, s)
                &&& o.offender == identification(self@, proof@.offender, s)->0
            },
    {
        let id = self.resolve_offender(proof.offender.as_slice(), s)?;
        Ok(
            MockOffence {
                slot: proof.slot,
                session_index: s,
                validator_set_count: self.validator_set_count(s),
                offender: id.stash,
            },
        )
    }
}

} // verus!

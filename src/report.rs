//! Turning reported offences into slash instructions, at most once per
//! offender, kind and time slot.
//!
//! Reporting takes two steps. [`Pallet::prepare_report`] reads the ledger of
//! punished offenders and computes what to slash; the staking system then
//! applies those slashes, all or none; [`Pallet::conclude_report`] takes what
//! came of that, and only on success records the offenders, records the event
//! and hands out the reporters' reward.
use vstd::prelude::*;
use crate::checker::{check_equivocation_proof, is_equivocation};
use crate::evidence::{decoded, DecodeError, EquivocationProof};
use crate::offence::{
    identification, set_size, AccountId, LookupError, Offence, OffenceKind, OffenceView,
    SessionHistory, SessionIndex,
};
use crate::perbill::{severity, slash_fraction, Perbill};

verus! {

/// An offender punished for one kind of offence in one time slot.
#[derive(Clone, Copy, Debug, PartialEq, Eq, Structural)]
pub struct ReportId {
    pub kind: OffenceKind,
    pub time_slot: u64,
    pub offender: AccountId,
}

/// Slash `fraction` of the offender's exposure in `session_index`.
#[derive(Clone, Copy, Debug, PartialEq, Eq, Structural)]
pub struct SlashInstruction {
    pub offender: AccountId,
    pub fraction: Perbill,
    pub session_index: SessionIndex,
}

/// A report that passed the checks, waiting for its slashes to be applied.
pub struct PendingReport {
    pub kind: OffenceKind,
    pub time_slot: u64,
    pub session_index: SessionIndex,
    pub fraction: Perbill,
    pub slashes: Vec<SlashInstruction>,
    pub reporters: Vec<AccountId>,
}

/// Reward `reporters` for an offence punished with `fraction`.
pub struct RewardInstruction {
    pub reporters: Vec<AccountId>,
    pub fraction: Perbill,
}

/// The record left by a punished offence.
pub struct OffenceEvent {
    pub kind: OffenceKind,
    pub time_slot: u64,
    pub offenders: Vec<AccountId>,
    pub fraction: Perbill,
}

/// The value of an [`OffenceEvent`].
pub struct EventView {
    pub kind: OffenceKind,
    pub time_slot: u64,
    pub offenders: Seq<AccountId>,
    pub fraction: Perbill,
}

impl View for OffenceEvent {
    type V = EventView;

    open spec fn view(&self) -> EventView {
        EventView {
            kind: self.kind,
            time_slot: self.time_slot,
            offenders: self.offenders@,
            fraction: self.fraction,
        }
    }
}

/// Why a report was refused.
#[derive(Clone, Copy, Debug, PartialEq, Eq, Structural)]
pub enum ReportError {
    /// Every offender was already punished for this kind and time slot.
    DuplicateReport,
    /// The offence's validator set is empty, so no severity can be computed.
    UnknownValidatorSet,
    /// The staking system could not apply the slashes.
    SlashApplicationFailed,
}

/// Why an equivocation report was refused.
#[derive(Clone, Copy, Debug, PartialEq, Eq, Structural)]
pub enum EquivocationError {
    /// The bytes are not the encoding of a proof.
    Decode(DecodeError),
    /// The proof does not show an equivocation.
    InvalidProof,
    /// The offender could not be identified in the session.
    Lookup(LookupError),
    /// The offence was refused.
    Report(ReportError),
}

/// The offence that an equivocation at `slot`, by the authority that `stash`
/// stands for in session `s`, amounts to.
pub open spec fn equivocation_offence(
    h: Seq<crate::offence::SessionView>,
    slot: u64,
    stash: AccountId,
    s: SessionIndex,
) -> OffenceView {
    OffenceView {
        kind: OffenceKind::BabeEquivocation,
        time_slot: slot,
        session_index: s,
        validator_set_count: set_size(h, s) as u32,
        offenders: seq![stash],
    }
}

/// The staking system refused to apply a set of slashes.
#[derive(Clone, Copy, Debug, PartialEq, Eq, Structural)]
pub struct SlashError {}

/// The ledger of punished offenders and the record of punished offences.
pub struct Pallet {
    reported: Vec<ReportId>,
    events: Vec<OffenceEvent>,
}

/// The value of a [`Pallet`].
pub struct PalletView {
    pub reported: Seq<ReportId>,
    pub events: Seq<EventView>,
}

impl View for Pallet {
    type V = PalletView;

    closed spec fn view(&self) -> PalletView {
        PalletView {
            reported: self.reported@,
            events: self.events@.map_values(|e: OffenceEvent| e@),
        }
    }
}

pub open spec fn report_id(kind: OffenceKind, time_slot: u64, offender: AccountId) -> ReportId {
    ReportId { kind, time_slot, offender }
}

/// Whether every offender of `o` was punished for its kind and time slot.
pub open spec fn all_reported(ledger: Seq<ReportId>, o: OffenceView) -> bool {
    forall|i: int|
        0 <= i < o.offenders.len() ==> ledger.contains(
            report_id(o.kind, o.time_slot, #[trigger] o.offenders[i]),
        )
}

/// The offenders among `offenders` not yet punished for `kind` at `time_slot`,
/// each once, in order of first appearance.
pub open spec fn fresh_offenders(
    ledger: Seq<ReportId>,
    kind: OffenceKind,
    time_slot: u64,
    offenders: Seq<AccountId>,
) -> Seq<AccountId>
    decreases offenders.len(),
{
    if offenders.len() == 0 {
        Seq::empty()
    } else {
        let prev = fresh_offenders(ledger, kind, time_slot, offenders.drop_last());
        let w = offenders.last();
        if ledger.contains(report_id(kind, time_slot, w)) || prev.contains(w) {
            prev
        } else {
            prev.push(w)
        }
    }
}

/// The ledger entries that concluding `p` adds.
pub open spec fn pending_ids(p: PendingReport) -> Seq<ReportId> {
    p.slashes@.map_values(|s: SlashInstruction| report_id(p.kind, p.time_slot, s.offender))
}

/// The offenders that `p` slashes.
pub open spec fn pending_offenders(p: PendingReport) -> Seq<AccountId> {
    p.slashes@.map_values(|s: SlashInstruction| s.offender)
}

/// Every offender is punished already or slashed by the new report.
proof fn lemma_fresh_covers(
    ledger: Seq<ReportId>,
    kind: OffenceKind,
    time_slot: u64,
    offenders: Seq<AccountId>,
)
    ensures
        forall|i: int|
            0 <= i < offenders.len() ==> ledger.contains(report_id(kind, time_slot, offenders[i]))
                || fresh_offenders(ledger, kind, time_slot, offenders).contains(offenders[i]),
        forall|w: AccountId|
            fresh_offenders(ledger, kind, time_slot, offenders).contains(w) ==> offenders.contains(w)
                && !ledger.contains(report_id(kind, time_slot, w)),
    decreases offenders.len(),
{
    if offenders.len() > 0 {
        let front = offenders.drop_last();
        lemma_fresh_covers(ledger, kind, time_slot, front);
        let prev = fresh_offenders(ledger, kind, time_slot, front);
        let cur = fresh_offenders(ledger, kind, time_slot, offenders);
        assert forall|i: int| 0 <= i < offenders.len() implies ledger.contains(
            report_id(kind, time_slot, offenders[i]),
        ) || cur.contains(offenders[i]) by {
            if i < offenders.len() - 1 {
                assert(offenders[i] == front[i]);
                if prev.contains(offenders[i]) {
                    let k = choose|k: int| 0 <= k < prev.len() && prev[k] == offenders[i];
                    assert(cur[k] == offenders[i]);
                }
            } else if !ledger.contains(report_id(kind, time_slot, offenders[i])) {
                if prev.contains(offenders[i]) {
                    let k = choose|k: int| 0 <= k < prev.len() && prev[k] == offenders[i];
                    assert(cur[k] == offenders[i]);
                } else {
                    assert(cur[prev.len() as int] == offenders[i]);
                }
            }
        }
        let w0 = offenders.last();
        let added = !ledger.contains(report_id(kind, time_slot, w0)) && !prev.contains(w0);
        assert forall|w: AccountId| cur.contains(w) implies offenders.contains(w) && !ledger.contains(
            report_id(kind, time_slot, w),
        ) by {
            let k = choose|k: int| 0 <= k < cur.len() && cur[k] == w;
            if k < prev.len() {
                assert(prev[k] == w);
                assert(prev.contains(w));
                assert(front.contains(w));
                let m = choose|m: int| 0 <= m < front.len() && front[m] == w;
                assert(offenders[m] == w);
            } else {
                assert(added);
                assert(offenders[offenders.len() - 1] == w);
            }
        }
    }
}

/// The new report slashes nobody exactly when every offender was punished.
proof fn lemma_fresh_empty(ledger: Seq<ReportId>, o: OffenceView)
    ensures
        fresh_offenders(ledger, o.kind, o.time_slot, o.offenders).len() == 0 <==> all_reported(
            ledger,
            o,
        ),
{
    let f = fresh_offenders(ledger, o.kind, o.time_slot, o.offenders);
    lemma_fresh_covers(ledger, o.kind, o.time_slot, o.offenders);
    if f.len() > 0 {
        let w = f[0];
        assert(f.contains(w));
        assert(o.offenders.contains(w));
        let i = choose|i: int| 0 <= i < o.offenders.len() && o.offenders[i] == w;
        assert(o.offenders[i] == w);
        assert(!ledger.contains(report_id(o.kind, o.time_slot, o.offenders[i])));
    } else {
        assert forall|i: int| 0 <= i < o.offenders.len() implies ledger.contains(
            report_id(o.kind, o.time_slot, #[trigger] o.offenders[i]),
        ) by {
            if !ledger.contains(report_id(o.kind, o.time_slot, o.offenders[i])) {
                assert(f.contains(o.offenders[i]));
            }
        }
    }
}

/// Once the report prepared for an offence is concluded, every offender of it
/// stands in the ledger, so reporting the same offence again is refused as a
/// duplicate and slashes nobody twice.
pub proof fn lemma_no_double_punishment(ledger: Seq<ReportId>, o: OffenceView, p: PendingReport)
    requires
        p.kind == o.kind,
        p.time_slot == o.time_slot,
        pending_offenders(p) == fresh_offenders(ledger, o.kind, o.time_slot, o.offenders),
    ensures
        all_reported(ledger + pending_ids(p), o),
{
    let f = fresh_offenders(ledger, o.kind, o.time_slot, o.offenders);
    let next = ledger + pending_ids(p);
    lemma_fresh_covers(ledger, o.kind, o.time_slot, o.offenders);
    assert forall|i: int| 0 <= i < o.offenders.len() implies next.contains(
        report_id(o.kind, o.time_slot, #[trigger] o.offenders[i]),
    ) by {
        let id = report_id(o.kind, o.time_slot, o.offenders[i]);
        if ledger.contains(id) {
            let k = choose|k: int| 0 <= k < ledger.len() && ledger[k] == id;
            assert(next[k] == id);
        } else {
            let k = choose|k: int| 0 <= k < f.len() && f[k] == o.offenders[i];
            assert(pending_offenders(p)[k] == p.slashes@[k].offender);
            assert(pending_ids(p)[k] == id);
            assert(next[ledger.len() + k] == id);
        }
    }
}

impl Pallet {
    pub fn new() -> (r: Pallet)
        ensures
            r@.reported == Seq::<ReportId>::empty(),
            r@.events == Seq::<EventView>::empty(),
    {
        let r = Pallet { reported: Vec::new(), events: Vec::new() };
        assert(r@.events =~= Seq::<EventView>::empty());
        r
    }

    /// Whether `id` stands in the ledger.
    pub fn is_reported(&self, id: ReportId) -> (r: bool)
        ensures
            r == self@.reported.contains(id),
    {
        let mut i: usize = 0;
        while i < self.reported.len()
            invariant
                i <= self.reported@.len(),
                forall|k: int| 0 <= k < i ==> self.reported@[k] != id,
            decreases self.reported@.len() - i,
        {
            if self.reported[i] == id {
                assert(self@.reported[i as int] == id);
                return true;
            }
            i = i + 1;
        }
        false
    }

    /// Whether every offender of `offence` was punished for its kind and time slot.
    pub fn is_known_offence(&self, offence: &Offence) -> (r: bool)
        ensures
            r == all_reported(self@.reported, offence@),
    {
        let mut i: usize = 0;
        while i < offence.offenders.len()
            invariant
                i <= offence.offenders@.len(),
                forall|k: int|
                    0 <= k < i ==> self@.reported.contains(
                        report_id(offence.kind, offence.time_slot, #[trigger] offence.offenders@[k]),
                    ),
            decreases offence.offenders@.len() - i,
        {
            let id = ReportId {
                kind: offence.kind,
                time_slot: offence.time_slot,
                offender: offence.offenders[i],
            };
            if !self.is_reported(id) {
                return false;
            }
            i = i + 1;
        }
        true
    }

    /// The offenders of `offence` not yet punished for its kind and time slot.
    fn fresh(&self, offence: &Offence) -> (r: Vec<AccountId>)
        ensures
            r@ == fresh_offenders(
                self@.reported,
                offence.kind,
                offence.time_slot,
                offence.offenders@,
            ),
    {
        let mut out: Vec<AccountId> = Vec::new();
        let mut i: usize = 0;
        while i < offence.offenders.len()
            invariant
                i <= offence.offenders@.len(),
                out@ == fresh_offenders(
                    self@.reported,
                    offence.kind,
                    offence.time_slot,
                    offence.offenders@.subrange(0, i as int),
                ),
            decreases offence.offenders@.len() - i,
        {
            let w = offence.offenders[i];
            let ghost front = offence.offenders@.subrange(0, i as int);
            let ghost next = offence.offenders@.subrange(0, i + 1);
            assert(next.drop_last() =~= front);
            assert(next.last() == w);
            let id = ReportId { kind: offence.kind, time_slot: offence.time_slot, offender: w };
            let mut seen = false;
            let mut j: usize = 0;
            while j < out.len()
                invariant
                    j <= out@.len(),
                    seen == out@.subrange(0, j as int).contains(w),
                decreases out@.len() - j,
            {
                if out[j] == w {
                    seen = true;
                }
                proof {
                    let a = out@.subrange(0, j as int);
                    let b = out@.subrange(0, j + 1);
                    if a.contains(w) {
                        let k = choose|k: int| 0 <= k < a.len() && a[k] == w;
                        assert(b[k] == w);
                    }
                    if b.contains(w) && !a.contains(w) {
                        let k = choose|k: int| 0 <= k < b.len() && b[k] == w;
                        if k < j {
                            assert(a[k] == w);
                        }
                    }
                    if out@[j as int] == w {
                        assert(b[j as int] == w);
                    }
                }
                j = j + 1;
            }
            assert(out@.subrange(0, j as int) =~= out@);
            if !seen && !self.is_reported(id) {
                out.push(w);
            }
            i = i + 1;
        }
        assert(offence.offenders@.subrange(0, i as int) =~= offence.offenders@);
        out
    }

    /// Checks a report and computes its slashes: one for each offender not yet
    /// punished for the offence's kind and time slot, all at the offence's
    /// severity. Changes nothing.
    pub fn prepare_report(&self, reporters: &Vec<AccountId>, offence: &Offence) -> (r: Result<
        PendingReport,
        ReportError,
    >)
        requires
            offence@.wf(),
        ensures
            r == Err::<PendingReport, ReportError>(ReportError::DuplicateReport) <==> all_reported(
                self@.reported,
                offence@,
            ),
            r == Err::<PendingReport, ReportError>(ReportError::UnknownValidatorSet) <==> (
            !all_reported(self@.reported, offence@) && offence.validator_set_count == 0),
            r is Ok <==> !all_reported(self@.reported, offence@) && offence.validator_set_count
                > 0,
            r matches Ok(p) ==> {
                &&& p.kind == offence.kind
                &&& p.time_slot == offence.time_slot
                &&& p.session_index == offence.session_index
                &&& p.fraction.wf()
                &&& p.fraction.parts == severity(
                    offence.offenders@.len(),
                    offence.validator_set_count as nat,
                )
                &&& pending_offenders(p) == fresh_offenders(
                    self@.reported,
                    offence.kind,
                    offence.time_slot,
                    offence.offenders@,
                )
                &&& forall|i: int|
                    0 <= i < p.slashes@.len() ==> (#[trigger] p.slashes@[i]).fraction == p.fraction
                        && p.slashes@[i].session_index == p.session_index
                &&& p.reporters@ == reporters@
            },
    {
        let fresh = self.fresh(offence);
        proof {
            lemma_fresh_empty(self@.reported, offence@);
        }
        if fresh.len() == 0 {
            return Err(ReportError::DuplicateReport);
        }
        if offence.validator_set_count == 0 {
            return Err(ReportError::UnknownValidatorSet);
        }
        let fraction = slash_fraction(offence.offenders.len() as u32, offence.validator_set_count);
        let mut slashes: Vec<SlashInstruction> = Vec::new();
        let mut i: usize = 0;
        while i < fresh.len()
            invariant
                i <= fresh@.len(),
                slashes@.len() == i,
                forall|k: int|
                    0 <= k < i ==> #[trigger] slashes@[k] == (SlashInstruction {
                        offender: fresh@[k],
                        fraction,
                        session_index: offence.session_index,
                    }),
            decreases fresh@.len() - i,
        {
            slashes.push(
                SlashInstruction {
                    offender: fresh[i],
                    fraction,
                    session_index: offence.session_index,
                },
            );
            i = i + 1;
        }
        let p = PendingReport {
            kind: offence.kind,
            time_slot: offence.time_slot,
            session_index: offence.session_index,
            fraction,
            slashes,
            reporters: reporters.clone(),
        };
        assert(pending_offenders(p) =~= fresh@);
        Ok(p)
    }

    /// Takes an encoded equivocation proof from session `s` through decoding,
    /// checking and identification of the offender, and prepares the report of
    /// the offence it shows. Changes nothing.
    pub fn prepare_equivocation_report(
        &self,
        history: &SessionHistory,
        bytes: &[u8],
        s: SessionIndex,
        reporters: &Vec<AccountId>,
    ) -> (r: Result<PendingReport, EquivocationError>)
        requires
            history.wf(),
        ensures
            decoded(bytes@) is None ==> r matches Err(EquivocationError::Decode(_)),
            decoded(bytes@) matches Some(p) ==> {
                let stash = identification(history@, p.offender, s);
                let o = equivocation_offence(history@, p.slot, stash->0, s);
                &&& !is_equivocation(p) ==> r == Err::<PendingReport, EquivocationError>(
                    EquivocationError::InvalidProof,
                )
                &&& is_equivocation(p) && stash is None ==> r == Err::<
                    PendingReport,
                    EquivocationError,
                >(EquivocationError::Lookup(LookupError::UnknownAuthority))
                &&& is_equivocation(p) && stash is Some ==> {
                    &&& (r == Err::<PendingReport, EquivocationError>(
                        EquivocationError::Report(ReportError::DuplicateReport),
                    ) <==> all_reported(self@.reported, o))
                    &&& (r == Err::<PendingReport, EquivocationError>(
                        EquivocationError::Report(ReportError::UnknownValidatorSet),
                    ) <==> !all_reported(self@.reported, o) && o.validator_set_count == 0)
                    &&& (r is Ok <==> !all_reported(self@.reported, o) && o.validator_set_count
                        > 0)
                    &&& r matches Ok(pr) ==> {
                        &&& pr.kind == OffenceKind::BabeEquivocation
                        &&& pr.time_slot == p.slot
                        &&& pr.session_index == s
                        &&& pr.fraction.parts == severity(1, o.validator_set_count as nat)
                        &&& pending_offenders(pr) == seq![stash->0]
                        &&& forall|i: int|
                            0 <= i < pr.slashes@.len() ==> (#[trigger] pr.slashes@[i]).fraction
                                == pr.fraction && pr.slashes@[i].session_index == s
                        &&& pr.reporters@ == reporters@
                    }
                }
            },
    {
        let proof = match EquivocationProof::decode(bytes) {
            Ok(p) => p,
            Err(e) => {
                return Err(EquivocationError::Decode(e));
            },
        };
        if !check_equivocation_proof(&proof) {
            return Err(EquivocationError::InvalidProof);
        }
        let mock = match history.offence_from_proof(&proof, s) {
            Ok(m) => m,
            Err(e) => {
                return Err(EquivocationError::Lookup(e));
            },
        };
        let offence = mock.to_offence();
        proof {
            let o = equivocation_offence(history@, proof@.slot, mock.offender, s);
            assert(offence@ == o);
            if !all_reported(self@.reported, o) {
                assert(!self@.reported.contains(report_id(o.kind, o.time_slot, mock.offender)));
                reveal_with_fuel(fresh_offenders, 2);
                assert(o.offenders.drop_last() =~= Seq::<AccountId>::empty());
            }
        }
        match self.prepare_report(reporters, &offence) {
            Ok(p) => Ok(p),
            Err(e) => Err(EquivocationError::Report(e)),
        }
    }

    /// Concludes a prepared report with what came of applying its slashes. On
    /// success the slashed offenders enter the ledger, one event records the
    /// offence, and the reporters, if any, are to be rewarded. On failure
    /// nothing is recorded and nobody is rewarded.
    pub fn conclude_report(&mut self, pending: PendingReport, outcome: Result<(), SlashError>) -> (r:
        Result<Option<RewardInstruction>, ReportError>)
        ensures
            outcome is Err ==> r == Err::<Option<RewardInstruction>, ReportError>(
                ReportError::SlashApplicationFailed,
            ) && final(self)@ == old(self)@,
            outcome is Ok ==> {
                &&& r is Ok
                &&& final(self)@.reported == old(self)@.reported + pending_ids(pending)
                &&& final(self)@.events == old(self)@.events.push(
                    EventView {
                        kind: pending.kind,
                        time_slot: pending.time_slot,
                        offenders: pending_offenders(pending),
                        fraction: pending.fraction,
                    },
                )
            },
            r matches Ok(reward) ==> (reward is Some <==> pending.reporters@.len() > 0),
            r matches Ok(Some(reward)) ==> reward.reporters@ == pending.reporters@
                && reward.fraction == pending.fraction,
    {
        if outcome.is_err() {
            return Err(ReportError::SlashApplicationFailed);
        }
        let ghost old_reported = self.reported@;
        let ghost old_events = self@.events;
        let mut offenders: Vec<AccountId> = Vec::new();
        let mut i: usize = 0;
        while i < pending.slashes.len()
            invariant
                i <= pending.slashes@.len(),
                self.reported@ == old_reported + pending_ids(pending).subrange(0, i as int),
                offenders@ == pending_offenders(pending).subrange(0, i as int),
                self.events@.map_values(|e: OffenceEvent| e@) == old_events,
            decreases pending.slashes@.len() - i,
        {
            let s = pending.slashes[i];
            self.reported.push(
                ReportId { kind: pending.kind, time_slot: pending.time_slot, offender: s.offender },
            );
            offenders.push(s.offender);
            i = i + 1;
            assert(self.reported@ =~= old_reported + pending_ids(pending).subrange(0, i as int));
            assert(offenders@ =~= pending_offenders(pending).subrange(0, i as int));
        }
        assert(pending_ids(pending).subrange(0, i as int) =~= pending_ids(pending));
        assert(pending_offenders(pending).subrange(0, i as int) =~= pending_offenders(pending));
        let event = OffenceEvent {
            kind: pending.kind,
            time_slot: pending.time_slot,
            offenders,
            fraction: pending.fraction,
        };
        let ghost ev = event@;
        self.events.push(event);
        assert(self@.events =~= old_events.push(ev));
        if pending.reporters.len() > 0 {
            Ok(Some(RewardInstruction { reporters: pending.reporters, fraction: pending.fraction }))
        } else {
            Ok(None)
        }
    }

    /// The number of offences recorded.
    pub fn event_count(&self) -> (r: usize)
        ensures
            r == self@.events.len(),
    {
        self.events.len()
    }

    /// The recorded offences, oldest first.
    pub fn events(&self) -> (r: &Vec<OffenceEvent>)
        ensures
            r@.map_values(|e: OffenceEvent| e@) == self@.events,
    {
        &self.events
    }
}

} // verus!

use offences::offence::{MockOffence, Offence, OffenceKind};
use offences::perbill::slash_fraction;
use offences::report::{Pallet, ReportError, ReportId, SlashError};

fn offence(kind: OffenceKind, slot: u64, n: u32, offenders: Vec<u64>) -> Offence {
    Offence { kind, time_slot: slot, session_index: 3, validator_set_count: n, offenders }
}

#[test]
fn one_offender_of_eleven_end_to_end() {
    let mut pallet = Pallet::new();
    let o = MockOffence { slot: 12, session_index: 3, validator_set_count: 11, offender: 5 }.to_offence();
    let pending = pallet.prepare_report(&vec![90], &o).unwrap();
    assert_eq!(pending.fraction.deconstruct(), 74_380_165);
    assert_eq!(pending.slashes.len(), 1);
    assert_eq!(pending.slashes[0].offender, 5);
    assert_eq!(pending.slashes[0].session_index, 3);
    assert_eq!(pending.slashes[0].fraction, pending.fraction);
    let reward = pallet.conclude_report(pending, Ok(())).unwrap().expect("a reporter");
    assert_eq!(reward.reporters, vec![90]);
    assert_eq!(reward.fraction.deconstruct(), 74_380_165);
    assert_eq!(pallet.event_count(), 1);
    let ev = &pallet.events()[0];
    assert_eq!(ev.offenders, vec![5]);
    assert_eq!(ev.time_slot, 12);
    assert_eq!(ev.kind, OffenceKind::BabeEquivocation);
    assert!(matches!(pallet.prepare_report(&vec![91], &o), Err(ReportError::DuplicateReport)));
    assert_eq!(pallet.event_count(), 1);
}

#[test]
fn second_report_is_a_duplicate() {
    let mut pallet = Pallet::new();
    let o = offence(OffenceKind::BabeEquivocation, 4, 10, vec![1, 2]);
    let p = pallet.prepare_report(&vec![], &o).unwrap();
    assert!(pallet.conclude_report(p, Ok(())).unwrap().is_none());
    assert!(pallet.is_known_offence(&o));
    assert!(matches!(pallet.prepare_report(&vec![], &o), Err(ReportError::DuplicateReport)));
    // the same offenders for another kind or slot are a new offence
    let other_kind = offence(OffenceKind::GrandpaEquivocation, 4, 10, vec![1, 2]);
    assert!(pallet.prepare_report(&vec![], &other_kind).is_ok());
    let other_slot = offence(OffenceKind::BabeEquivocation, 5, 10, vec![1, 2]);
    assert!(pallet.prepare_report(&vec![], &other_slot).is_ok());
}

#[test]
fn overlapping_report_slashes_only_new_offenders() {
    let mut pallet = Pallet::new();
    let first = offence(OffenceKind::BabeEquivocation, 4, 10, vec![1]);
    let p = pallet.prepare_report(&vec![], &first).unwrap();
    pallet.conclude_report(p, Ok(())).unwrap();
    let wider = offence(OffenceKind::BabeEquivocation, 4, 10, vec![1, 2, 2, 3]);
    let p = pallet.prepare_report(&vec![], &wider).unwrap();
    let who: Vec<u64> = p.slashes.iter().map(|s| s.offender).collect();
    assert_eq!(who, vec![2, 3]);
    assert_eq!(p.fraction, slash_fraction(4, 10));
    pallet.conclude_report(p, Ok(())).unwrap();
    assert!(pallet.is_reported(ReportId { kind: OffenceKind::BabeEquivocation, time_slot: 4, offender: 3 }));
    assert_eq!(pallet.events()[1].offenders, vec![2, 3]);
}

#[test]
fn failed_slash_leaves_no_trace() {
    let mut pallet = Pallet::new();
    let o = offence(OffenceKind::BabeEquivocation, 8, 11, vec![5]);
    let p = pallet.prepare_report(&vec![90], &o).unwrap();
    let r = pallet.conclude_report(p, Err(SlashError {}));
    assert!(matches!(r, Err(ReportError::SlashApplicationFailed)));
    assert_eq!(pallet.event_count(), 0);
    assert!(!pallet.is_known_offence(&o));
    // the offence can be reported again once the cause is fixed
    let p = pallet.prepare_report(&vec![90], &o).unwrap();
    assert!(pallet.conclude_report(p, Ok(())).unwrap().is_some());
    assert_eq!(pallet.event_count(), 1);
}

#[test]
fn empty_validator_set_is_refused() {
    let pallet = Pallet::new();
    let o = offence(OffenceKind::BabeEquivocation, 8, 0, vec![5]);
    assert!(matches!(pallet.prepare_report(&vec![], &o), Err(ReportError::UnknownValidatorSet)));
}

//! Equivocation evidence and proportional slashing for a proof-of-stake
//! consensus layer: a canonical proof format, a checker for it, offence
//! records resolved against session history, the severity formula, and the
//! bookkeeping that turns a reported offence into slash instructions at most
//! once per offender.
pub mod bytes;
pub mod checker;
pub mod crypto;
pub mod evidence;
pub mod offence;
pub mod perbill;
pub mod report;

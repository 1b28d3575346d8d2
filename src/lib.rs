//! Shared ownership with strong and weak handles, kept as explicit
//! reference-counted blocks in an arena, plus single-owner models of the
//! message queue and the one-shot channel that sit beside it.
pub mod arc;
pub mod laws;
pub mod mutexchannel;
pub mod oneshotchannel;

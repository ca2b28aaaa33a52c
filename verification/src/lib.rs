//! A data-parallel dispatch engine.
//!
//! The engine runs a caller-supplied per-element operation over every element
//! of a buffer and returns only when every element has been visited exactly
//! once.  The heart of the crate is the scheduler: work is partitioned into
//! `LockedBatch` ranges that over-subscribe the worker count, and an idle
//! worker may join an already-running batch through an explicit
//! fast-counter-to-shared-counter hand-off without any index being handed out
//! twice.
//!
//! The batch and job state machines are modelled with plain fields and every
//! transition carries a contract, so the exactly-once distribution of indices,
//! the partition arithmetic and the one-shot completion signal are all
//! verified.  Thread spawning and the transport that broadcasts a job to the
//! workers are collaborators outside this crate's logic.

pub mod job;
pub mod locked_batch;
pub mod new_job;
pub mod operation;
pub mod pool;

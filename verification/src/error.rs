//! Typed errors of the connector core.
//!
//! The taxonomy distinguishes connection failures (handled inside the pool),
//! health-check failures, operations with no meaning on a backend, duplicate-key
//! conflicts (absorbable only under duplicate skipping), field conversion
//! failures decorated with the offending field, and opaque backend faults.
use vstd::prelude::*;

verus! {

/// Which step of opening a new connection failed: the open itself, or the
/// attach of the named logical database inside an embedded file.
#[derive(Clone, Copy, Debug, PartialEq, Eq, Structural)]
pub enum ConnectFailure {
    Open,
    Attach,
}

/// An opaque native fault of the backend, passed through unabsorbed.
#[derive(Clone, Copy, Debug, PartialEq, Eq, Structural)]
pub enum BackendFault {
    /// An atomic modifier met a field of an incompatible shape.
    TypeMismatch,
    /// An atomic increment left the integer range.
    Overflow,
    /// The generated-id space is exhausted.
    IdExhausted,
}

/// A typed connector error: callers can always tell "no connection",
/// "unsupported on this backend" and "backend rejected the operation" apart.
#[derive(Clone, Debug)]
pub enum Error {
    /// A new connection could not be produced.
    Connect(ConnectFailure),
    /// The health-check round trip failed; the connection is discarded.
    Validation,
    /// The operation has no meaning on this backend; carries its name.
    Unsupported(String),
    /// A duplicate-key conflict reported by the backend.
    Conflict,
    /// A value could not be converted to the field's backend representation;
    /// carries the offending field's database name.
    FieldConversion(String),
    /// Any other native backend failure.
    Backend(BackendFault),
}

} // verus!

//! The node's lifecycle status: a small enumeration stored as a
//! fixed-width code in a shared atomic cell, read and written from many
//! threads without locking.

use vstd::prelude::*;

use std::sync::atomic::{AtomicU8, Ordering};
use std::sync::Arc;

verus! {

/// What the node is currently doing.
#[derive(Copy, Clone, Debug, PartialEq, Eq, Hash, Structural)]
pub enum Status {
    /// The node is ready to handle requests.
    Ready,
    /// The node is connecting to the minimum number of required peers.
    Peering,
    /// The node is syncing blocks with a connected peer.
    Syncing,
    /// The node is terminating and shutting down.
    ShuttingDown,
    /// The node is in an unknown state.
    Unknown,
}

/// The fixed-width code under which a status is stored in the atomic cell.
pub open spec fn code_of(s: Status) -> u8 {
    match s {
        Status::Ready => 0,
        Status::Peering => 1,
        Status::Syncing => 2,
        Status::ShuttingDown => 3,
        Status::Unknown => 4,
    }
}

/// The status denoted by a stored code. A code without a known meaning
/// decodes to `Unknown`, so decoding is total and never fails.
pub open spec fn status_of(code: u8) -> Status {
    if code == 0 {
        Status::Ready
    } else if code == 1 {
        Status::Peering
    } else if code == 2 {
        Status::Syncing
    } else if code == 3 {
        Status::ShuttingDown
    } else {
        Status::Unknown
    }
}

/// The symbolic name of each status variant.
pub open spec fn name_of(s: Status) -> Seq<char> {
    match s {
        Status::Ready => "Ready"@,
        Status::Peering => "Peering"@,
        Status::Syncing => "Syncing"@,
        Status::ShuttingDown => "ShuttingDown"@,
        Status::Unknown => "Unknown"@,
    }
}

impl Status {
    /// Encodes this status as the code under which it is stored.
    pub fn as_code(self) -> (r: u8)
        ensures
            r == code_of(self),
    {
        match self {
            Status::Ready => 0,
            Status::Peering => 1,
            Status::Syncing => 2,
            Status::ShuttingDown => 3,
            Status::Unknown => 4,
        }
    }

    /// Decodes a stored code, falling back to `Unknown` for any value
    /// without a known meaning.
    pub fn from_code(code: u8) -> (r: Status)
        ensures
            r == status_of(code),
    {
        match code {
            0 => Status::Ready,
            1 => Status::Peering,
            2 => Status::Syncing,
            3 => Status::ShuttingDown,
            _ => Status::Unknown,
        }
    }

    /// Renders the symbolic name of the variant.
    pub fn name(self) -> (r: &'static str)
        ensures
            r@ == name_of(self),
    {
        match self {
            Status::Ready => "Ready",
            Status::Peering => "Peering",
            Status::Syncing => "Syncing",
            Status::ShuttingDown => "ShuttingDown",
            Status::Unknown => "Unknown",
        }
    }
}

/// Encoding a status and decoding the stored code gives the same status
/// back: every variant survives a trip through the atomic cell.
pub proof fn lemma_code_round_trip(s: Status)
    ensures
        status_of(code_of(s)) == s,
{
}

/// Every code outside the known range decodes to `Unknown`: reading the
/// status cell is a total operation and never fails.
pub proof fn lemma_out_of_range_code_is_unknown(code: u8)
    requires
        code > 3,
    ensures
        status_of(code) == Status::Unknown,
{
}

/// The node's lifecycle status in a shared, cheaply cloneable handle.
///
/// Clones share the same underlying atomic cell rather than copying it.
/// The cell is read and written with sequentially consistent ordering, so
/// an update is visible to every subsequent read on every thread. Because
/// any other holder of a clone may store to the cell at any moment, no
/// single caller can predict what the next load returns; the contracts
/// here therefore constrain only the encoding and decoding of the stored
/// code, which [`Status::from_code`] pins down exactly.
#[derive(Clone, Debug)]
pub struct RawStatus(Arc<AtomicU8>);

impl RawStatus {
    /// Initializes a new instance of `RawStatus`, storing `Peering`.
    pub fn new() -> Self {
        Self::from_status(Status::Peering)
    }

    /// Initializes a `RawStatus` storing the given status.
    pub fn from_status(status: Status) -> Self {
        RawStatus(Arc::new(AtomicU8::new(status.as_code())))
    }

    /// Atomically overwrites the current status with the given value.
    pub fn update(&self, status: Status) {
        self.0.store(status.as_code(), Ordering::SeqCst);
    }

    /// Atomically reads and decodes the current status; an unrecognized
    /// stored code decodes to `Unknown` rather than failing.
    pub fn get(&self) -> Status {
        Status::from_code(self.0.load(Ordering::SeqCst))
    }

    /// Returns `true` if the node is ready to handle requests.
    pub fn is_ready(&self) -> bool {
        self.get() == Status::Ready
    }

    /// Returns `true` if the node is currently peering.
    pub fn is_peering(&self) -> bool {
        self.get() == Status::Peering
    }

    /// Returns `true` if the node is currently syncing.
    pub fn is_syncing(&self) -> bool {
        self.get() == Status::Syncing
    }

    /// Returns `true` if the node is shutting down.
    pub fn is_shutting_down(&self) -> bool {
        self.get() == Status::ShuttingDown
    }
}

} // verus!

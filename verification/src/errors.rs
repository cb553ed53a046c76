//! The error taxonomy of the cache.

use vstd::prelude::*;

use crate::capabilities::CapabilitySet;
use crate::checksum::Checksum;

verus! {

/// Why a piece of bytecode was rejected by static validation.
#[derive(Clone, Copy, Debug, PartialEq, Eq, Structural)]
pub enum ValidationError {
    /// The bytecode ends before a declared header, count or name is complete.
    Truncated,
    /// The bytecode does not start with the container magic.
    WrongMagic,
    /// The container version is one this engine does not support.
    UnsupportedVersion(u8),
    /// The bytecode exports no `instantiate` entry point.
    MissingEntryPoint,
}

/// An error surfaced by a cache operation.
#[derive(Debug)]
pub enum VmError {
    /// Malformed or unsupported bytecode, rejected at save time.
    Validation(ValidationError),
    /// The bytecode requires capabilities the host does not support;
    /// carries every missing capability, not just the first.
    MissingCapabilities(CapabilitySet),
    /// No raw bytecode is on record under this checksum.
    NotFound(Checksum),
    /// An instance ran out of gas.
    GasDepletion,
}

} // verus!

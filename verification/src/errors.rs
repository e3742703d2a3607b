//! Closed enumeration of everything that can go wrong while planning or
//! driving a boot sequence, each variant carrying its structured context.

use vstd::prelude::*;

verus! {

/// Which per-core argument list a count mismatch was found in.
#[derive(Clone, Copy, PartialEq, Eq, Structural, Debug)]
pub enum ArgKind {
    RootfsDst,
    OpensbiDst,
    KernelDst,
    DtbDst,
    DtbBin,
}

/// Everything that can go wrong during validation, clock planning, or the
/// chip accesses that the driver performs.
#[derive(Clone, Copy, PartialEq, Eq, Structural, Debug)]
pub enum BootError {
    /// The requested operating point is not in the closed frequency table.
    UnsupportedFrequency { mhz: u32 },
    /// A requested logical core index is outside the supported range.
    CoreIndexOutOfRange { index: u32 },
    /// A per-core argument list does not have one entry per requested core.
    ArgumentCountMismatch { kind: ArgKind, expected: usize, actual: usize },
    /// The requested core is marked harvested in the enabled-core bitmap.
    HarvestedCore { index: u32 },
    /// The memory bank attached to the requested core is marked harvested.
    HarvestedMemory { index: u32 },
    /// A primitive chip read or write failed; the driver records the address.
    ChipAccess { addr: u64 },
}

} // verus!

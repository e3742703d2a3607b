//! Plain-data descriptions of chip operations.
//!
//! The library never touches the chip: it computes sequences of these
//! operation records, and an unverified driver performs them in order.

use vstd::prelude::*;

verus! {

/// A single four-byte write to a local-bus (AXI) register, as planned by the
/// clock transition controller.
#[derive(Debug)]
pub struct RegWrite {
    pub addr: u64,
    pub data: Vec<u8>,
}

/// The abstract value of a [`RegWrite`]: its address and byte contents.
pub struct WriteSpec {
    pub addr: u64,
    pub data: Seq<u8>,
}

impl View for RegWrite {
    type V = WriteSpec;

    open spec fn view(&self) -> WriteSpec {
        WriteSpec { addr: self.addr, data: self.data@ }
    }
}

/// The abstract values of a sequence of planned register writes.
pub open spec fn reg_writes_view(s: Seq<RegWrite>) -> Seq<WriteSpec> {
    s.map_values(|w: RegWrite| w@)
}

/// One primitive chip operation, either over the local bus (AXI) or over the
/// mesh interconnect (NOC) toward the tile at coordinates `(x, y)`.
#[derive(Debug)]
pub enum ChipOp {
    AxiWrite32 { addr: u64, value: u32 },
    AxiRead32 { addr: u64 },
    NocWrite { x: u8, y: u8, addr: u64, data: Vec<u8> },
    NocWrite32 { x: u8, y: u8, addr: u64, value: u32 },
    NocRead32 { x: u8, y: u8, addr: u64 },
}

/// The abstract value of a [`ChipOp`], with byte payloads as sequences.
pub enum OpSpec {
    AxiWrite32 { addr: u64, value: u32 },
    AxiRead32 { addr: u64 },
    NocWrite { x: u8, y: u8, addr: u64, data: Seq<u8> },
    NocWrite32 { x: u8, y: u8, addr: u64, value: u32 },
    NocRead32 { x: u8, y: u8, addr: u64 },
}

impl View for ChipOp {
    type V = OpSpec;

    open spec fn view(&self) -> OpSpec {
        match self {
            ChipOp::AxiWrite32 { addr, value } => OpSpec::AxiWrite32 {
                addr: *addr,
                value: *value,
            },
            ChipOp::AxiRead32 { addr } => OpSpec::AxiRead32 { addr: *addr },
            ChipOp::NocWrite { x, y, addr, data } => OpSpec::NocWrite {
                x: *x,
                y: *y,
                addr: *addr,
                data: data@,
            },
            ChipOp::NocWrite32 { x, y, addr, value } => OpSpec::NocWrite32 {
                x: *x,
                y: *y,
                addr: *addr,
                value: *value,
            },
            ChipOp::NocRead32 { x, y, addr } => OpSpec::NocRead32 { x: *x, y: *y, addr: *addr },
        }
    }
}

/// The abstract values of a sequence of planned chip operations.
pub open spec fn chip_ops_view(s: Seq<ChipOp>) -> Seq<OpSpec> {
    s.map_values(|op: ChipOp| op@)
}

/// Taking abstract values commutes with concatenation of write plans.
pub proof fn lemma_reg_writes_view_add(a: Seq<RegWrite>, b: Seq<RegWrite>)
    ensures
        reg_writes_view(a + b) == reg_writes_view(a) + reg_writes_view(b),
{
    assert(reg_writes_view(a + b) =~= reg_writes_view(a) + reg_writes_view(b));
}

/// Taking abstract values commutes with concatenation of operation plans.
pub proof fn lemma_chip_ops_view_add(a: Seq<ChipOp>, b: Seq<ChipOp>)
    ensures
        chip_ops_view(a + b) == chip_ops_view(a) + chip_ops_view(b),
{
    assert(chip_ops_view(a + b) =~= chip_ops_view(a) + chip_ops_view(b));
}

} // verus!

//! The boot sequencer: validation of a boot request, image padding, and the
//! planned chip operations that place images, cycle reset, and configure the
//! prefetchers.

use vstd::prelude::*;

use crate::errors::{ArgKind, BootError};
use crate::ops::{ChipOp, OpSpec, chip_ops_view, lemma_chip_ops_view_add};
use crate::topology::{spec_gddr_enable_bit, spec_tile_coords, tile_coords};

verus! {

/// Base of the reset unit's register block on the local bus.
pub const RESET_UNIT_BASE: u64 = 0x80030000;

/// Address of the combined L2CPU reset register.
pub const L2CPU_RESET_REG_ADDR: u64 = RESET_UNIT_BASE + 0x14;

/// Base of the cache control register block inside a core's address space.
pub const L3_REG_BASE: u64 = 0x02010000;

/// Address of the cache-enable control register inside a core.
pub const L3_CACHE_ENABLE_ADDR: u64 = L3_REG_BASE + 8;

/// Value that enables the core's full cache.
pub const L3_CACHE_ENABLE_ALL: u32 = 0xf;

/// Base of the four redundant 8-byte-stride reset-vector slots.
pub const RESET_VECTOR_BASE: u64 = 0xfffff7fefff10000;

/// Base of the prefetcher control blocks inside a core's address space.
pub const L2_PREFETCH_BASE: u64 = 0x02030000;

/// First control value written to each prefetcher control block.
pub const L2_PREFETCH_CTRL0: u32 = 0x15811;

/// Second control value written to each prefetcher control block.
pub const L2_PREFETCH_CTRL1: u32 = 0x38c84e;

/// Length of a byte sequence after padding up to the next 4-byte boundary.
pub open spec fn padded_len(n: nat) -> nat {
    if n % 4 == 0 {
        n
    } else {
        (n + (4 - n % 4)) as nat
    }
}

/// A byte sequence padded with trailing zero bytes to a 4-byte boundary.
pub open spec fn padded(data: Seq<u8>) -> Seq<u8> {
    data + Seq::new((padded_len(data.len()) - data.len()) as nat, |i: int| 0u8)
}

/// Pads an image with trailing zero bytes until its length is a multiple of
/// four, as the interconnect write path requires.
pub fn pad_image(data: Vec<u8>) -> (r: Vec<u8>)
    requires
        data@.len() + 3 <= usize::MAX,
    ensures
        r@ == padded(data@),
        r@.len() == padded_len(data@.len()),
        r@.len() % 4 == 0,
{
    let ghost orig = data@;
    let mut out = data;
    while out.len() % 4 != 0
        invariant
            orig.len() <= out@.len() <= padded_len(orig.len()),
            out@.len() + 3 <= usize::MAX,
            out@ == orig + Seq::new((out@.len() - orig.len()) as nat, |i: int| 0u8),
        decreases padded_len(orig.len()) - out@.len(),
    {
        out.push(0);
        proof {
            assert(out@ =~= orig + Seq::new((out@.len() - orig.len()) as nat, |i: int| 0u8));
        }
    }
    proof {
        assert(out@ =~= padded(orig));
    }
    out
}

/// Whether bit `bit` is set in `bitmap`.
pub open spec fn bit_set(bitmap: u32, bit: u32) -> bool {
    bitmap & (1u32 << bit) != 0
}

/// The first out-of-range core index error among the first `n` requested
/// cores, if any.
pub open spec fn index_error(cores: Seq<u32>, n: int) -> Option<BootError>
    decreases n,
{
    if n <= 0 {
        None
    } else if index_error(cores, n - 1) is Some {
        index_error(cores, n - 1)
    } else if cores[n - 1] >= 4 {
        Some(BootError::CoreIndexOutOfRange { index: cores[n - 1] })
    } else {
        None
    }
}

/// Once a prefix of the requested cores yields an index error, every longer
/// prefix yields the same error.
proof fn lemma_index_error_monotone(cores: Seq<u32>, n1: int, n2: int)
    requires
        0 <= n1 <= n2,
        index_error(cores, n1) is Some,
    ensures
        index_error(cores, n2) == index_error(cores, n1),
    decreases n2 - n1,
{
    if n2 > n1 {
        lemma_index_error_monotone(cores, n1, n2 - 1);
    }
}

/// Checks that every requested logical core index is within the supported
/// range, reporting the first offender.
pub fn validate_core_indices(cores: &Vec<u32>) -> (r: Result<(), BootError>)
    ensures
        r is Ok <==> index_error(cores@, cores@.len() as int) is None,
        r matches Err(e) ==> index_error(cores@, cores@.len() as int) == Some(e),
        r is Ok ==> forall|i: int| 0 <= i < cores@.len() ==> cores@[i] < 4,
{
    let n = cores.len();
    let mut i: usize = 0;
    while i < n
        invariant
            n == cores@.len(),
            i <= n,
            index_error(cores@, i as int) is None,
            forall|j: int| 0 <= j < i ==> cores@[j] < 4,
        decreases n - i,
    {
        if cores[i] >= 4 {
            let e = BootError::CoreIndexOutOfRange { index: cores[i] };
            proof {
                assert(index_error(cores@, i + 1) == Some(e));
                lemma_index_error_monotone(cores@, i + 1, n as int);
            }
            return Err(e);
        }
        i = i + 1;
    }
    Ok(())
}

/// The harvest error of a single requested core against the two enabled
/// bitmaps: the core's own bit is checked first, then its memory bank's.
pub open spec fn core_harvest_error(core: u32, enabled_l2cpu: u32, enabled_gddr: u32) -> Option<
    BootError,
> {
    if !bit_set(enabled_l2cpu, core) {
        Some(BootError::HarvestedCore { index: core })
    } else if !bit_set(enabled_gddr, spec_gddr_enable_bit(core as int) as u32) {
        Some(BootError::HarvestedMemory { index: core })
    } else {
        None
    }
}

/// The first harvest error among the first `n` requested cores, if any.
pub open spec fn harvest_error(cores: Seq<u32>, enabled_l2cpu: u32, enabled_gddr: u32, n: int) -> Option<
    BootError,
>
    decreases n,
{
    if n <= 0 {
        None
    } else if harvest_error(cores, enabled_l2cpu, enabled_gddr, n - 1) is Some {
        harvest_error(cores, enabled_l2cpu, enabled_gddr, n - 1)
    } else {
        core_harvest_error(cores[n - 1], enabled_l2cpu, enabled_gddr)
    }
}

/// Once a prefix of the requested cores yields a harvest error, every longer
/// prefix yields the same error.
proof fn lemma_harvest_error_monotone(
    cores: Seq<u32>,
    enabled_l2cpu: u32,
    enabled_gddr: u32,
    n1: int,
    n2: int,
)
    requires
        0 <= n1 <= n2,
        harvest_error(cores, enabled_l2cpu, enabled_gddr, n1) is Some,
    ensures
        harvest_error(cores, enabled_l2cpu, enabled_gddr, n2) == harvest_error(
            cores,
            enabled_l2cpu,
            enabled_gddr,
            n1,
        ),
    decreases n2 - n1,
{
    if n2 > n1 {
        lemma_harvest_error_monotone(cores, enabled_l2cpu, enabled_gddr, n1, n2 - 1);
    }
}

/// Checks every requested core against the telemetry bitmaps: the core must
/// not be harvested, and neither may the memory bank it owns. Reports the
/// first offender, in request order. Purely a decision: no chip operation is
/// planned or performed here.
pub fn validate_harvesting(cores: &Vec<u32>, enabled_l2cpu: u32, enabled_gddr: u32) -> (r: Result<
    (),
    BootError,
>)
    requires
        forall|i: int| 0 <= i < cores@.len() ==> cores@[i] < 4,
    ensures
        r is Ok <==> harvest_error(cores@, enabled_l2cpu, enabled_gddr, cores@.len() as int)
            is None,
        r matches Err(e) ==> harvest_error(
            cores@,
            enabled_l2cpu,
            enabled_gddr,
            cores@.len() as int,
        ) == Some(e),
{
    let n = cores.len();
    let mut i: usize = 0;
    while i < n
        invariant
            n == cores@.len(),
            i <= n,
            forall|j: int| 0 <= j < cores@.len() ==> cores@[j] < 4,
            harvest_error(cores@, enabled_l2cpu, enabled_gddr, i as int) is None,
        decreases n - i,
    {
        let core = cores[i];
        if enabled_l2cpu & (1u32 << core) == 0 {
            let e = BootError::HarvestedCore { index: core };
            proof {
                assert(harvest_error(cores@, enabled_l2cpu, enabled_gddr, i + 1) == Some(e));
                lemma_harvest_error_monotone(cores@, enabled_l2cpu, enabled_gddr, i + 1, n as int);
            }
            return Err(e);
        }
        let gddr_bit = crate::topology::gddr_enable_bit(core);
        if enabled_gddr & (1u32 << (gddr_bit as u32)) == 0 {
            let e = BootError::HarvestedMemory { index: core };
            proof {
                assert(harvest_error(cores@, enabled_l2cpu, enabled_gddr, i + 1) == Some(e));
                lemma_harvest_error_monotone(cores@, enabled_l2cpu, enabled_gddr, i + 1, n as int);
            }
            return Err(e);
        }
        proof {
            assert(harvest_error(cores@, enabled_l2cpu, enabled_gddr, i + 1) is None);
        }
        i = i + 1;
    }
    Ok(())
}

/// The first argument-count mismatch among the per-core argument lists, in
/// the order the lists are declared, if any. A list that is absent is legal;
/// a present list must have exactly one entry per requested core.
pub open spec fn counts_error(
    n_cores: usize,
    rootfs_dst: usize,
    opensbi_dst: usize,
    kernel_dst: Option<usize>,
    dtb_dst: Option<usize>,
    dtb_bin: Option<usize>,
) -> Option<BootError> {
    if rootfs_dst != n_cores {
        Some(
            BootError::ArgumentCountMismatch {
                kind: ArgKind::RootfsDst,
                expected: n_cores,
                actual: rootfs_dst,
            },
        )
    } else if opensbi_dst != n_cores {
        Some(
            BootError::ArgumentCountMismatch {
                kind: ArgKind::OpensbiDst,
                expected: n_cores,
                actual: opensbi_dst,
            },
        )
    } else if kernel_dst matches Some(k) && k != n_cores {
        Some(
            BootError::ArgumentCountMismatch {
                kind: ArgKind::KernelDst,
                expected: n_cores,
                actual: kernel_dst.unwrap(),
            },
        )
    } else if dtb_dst matches Some(d) && d != n_cores {
        Some(
            BootError::ArgumentCountMismatch {
                kind: ArgKind::DtbDst,
                expected: n_cores,
                actual: dtb_dst.unwrap(),
            },
        )
    } else if dtb_bin matches Some(d) && d != n_cores {
        Some(
            BootError::ArgumentCountMismatch {
                kind: ArgKind::DtbBin,
                expected: n_cores,
                actual: dtb_bin.unwrap(),
            },
        )
    } else {
        None
    }
}

/// Checks that each supplied per-core argument list has exactly one entry
/// per requested core, reporting the first mismatch in declaration order.
pub fn validate_arg_counts(
    n_cores: usize,
    rootfs_dst: usize,
    opensbi_dst: usize,
    kernel_dst: Option<usize>,
    dtb_dst: Option<usize>,
    dtb_bin: Option<usize>,
) -> (r: Result<(), BootError>)
    ensures
        r is Ok <==> counts_error(n_cores, rootfs_dst, opensbi_dst, kernel_dst, dtb_dst, dtb_bin)
            is None,
        r matches Err(e) ==> counts_error(
            n_cores,
            rootfs_dst,
            opensbi_dst,
            kernel_dst,
            dtb_dst,
            dtb_bin,
        ) == Some(e),
{
    if rootfs_dst != n_cores {
        return Err(
            BootError::ArgumentCountMismatch {
                kind: ArgKind::RootfsDst,
                expected: n_cores,
                actual: rootfs_dst,
            },
        );
    }
    if opensbi_dst != n_cores {
        return Err(
            BootError::ArgumentCountMismatch {
                kind: ArgKind::OpensbiDst,
                expected: n_cores,
                actual: opensbi_dst,
            },
        );
    }
    if let Some(k) = kernel_dst {
        if k != n_cores {
            return Err(
                BootError::ArgumentCountMismatch {
                    kind: ArgKind::KernelDst,
                    expected: n_cores,
                    actual: k,
                },
            );
        }
    }
    if let Some(d) = dtb_dst {
        if d != n_cores {
            return Err(
                BootError::ArgumentCountMismatch {
                    kind: ArgKind::DtbDst,
                    expected: n_cores,
                    actual: d,
                },
            );
        }
    }
    if let Some(d) = dtb_bin {
        if d != n_cores {
            return Err(
                BootError::ArgumentCountMismatch {
                    kind: ArgKind::DtbBin,
                    expected: n_cores,
                    actual: d,
                },
            );
        }
    }
    Ok(())
}

/// Copies a byte vector, so that one loaded image can appear in the plan of
/// every core that receives it.
fn copy_bytes(src: &Vec<u8>) -> (r: Vec<u8>)
    ensures
        r@ == src@,
{
    let mut out: Vec<u8> = Vec::new();
    let n = src.len();
    let mut i: usize = 0;
    while i < n
        invariant
            n == src@.len(),
            i <= n,
            out@ == src@.take(i as int),
        decreases n - i,
    {
        out.push(src[i]);
        i = i + 1;
        proof {
            assert(out@ =~= src@.take(i as int));
        }
    }
    proof {
        assert(out@ =~= src@);
    }
    out
}

/// The eight writes that fill the four redundant reset-vector slots with the
/// primary firmware address, low 32 bits then high 32 bits per slot, at an
/// 8-byte stride; the read path may sample any slot depending on hardware
/// revision.
pub open spec fn reset_vector_ops(x: u8, y: u8, fw_addr: u64) -> Seq<OpSpec> {
    let lo = (fw_addr & 0xffffffff) as u32;
    let hi = (fw_addr >> 32) as u32;
    seq![
        OpSpec::NocWrite32 { x, y, addr: (RESET_VECTOR_BASE + 0) as u64, value: lo },
        OpSpec::NocWrite32 { x, y, addr: (RESET_VECTOR_BASE + 4) as u64, value: hi },
        OpSpec::NocWrite32 { x, y, addr: (RESET_VECTOR_BASE + 8) as u64, value: lo },
        OpSpec::NocWrite32 { x, y, addr: (RESET_VECTOR_BASE + 12) as u64, value: hi },
        OpSpec::NocWrite32 { x, y, addr: (RESET_VECTOR_BASE + 16) as u64, value: lo },
        OpSpec::NocWrite32 { x, y, addr: (RESET_VECTOR_BASE + 20) as u64, value: hi },
        OpSpec::NocWrite32 { x, y, addr: (RESET_VECTOR_BASE + 24) as u64, value: lo },
        OpSpec::NocWrite32 { x, y, addr: (RESET_VECTOR_BASE + 28) as u64, value: hi },
    ]
}

/// The operations that place one core's images: enable the full cache and
/// read it back, write each present image to its destination, then fill the
/// four redundant reset-vector slots with the primary firmware address.
pub open spec fn place_plan(
    l2cpu: u32,
    opensbi_dst: u64,
    opensbi: Seq<u8>,
    rootfs_dst: u64,
    rootfs: Seq<u8>,
    kernel: Option<(u64, Seq<u8>)>,
    dtb: Option<(u64, Seq<u8>)>,
) -> Seq<OpSpec> {
    let x = spec_tile_coords(l2cpu as int).0;
    let y = spec_tile_coords(l2cpu as int).1;
    seq![
        OpSpec::NocWrite32 { x, y, addr: L3_CACHE_ENABLE_ADDR, value: L3_CACHE_ENABLE_ALL },
        OpSpec::NocRead32 { x, y, addr: L3_CACHE_ENABLE_ADDR },
        OpSpec::NocWrite { x, y, addr: opensbi_dst, data: opensbi },
        OpSpec::NocWrite { x, y, addr: rootfs_dst, data: rootfs },
    ] + (match kernel {
        Some((addr, data)) => seq![OpSpec::NocWrite { x, y, addr, data }],
        None => Seq::empty(),
    }) + (match dtb {
        Some((addr, data)) => seq![OpSpec::NocWrite { x, y, addr, data }],
        None => Seq::empty(),
    }) + reset_vector_ops(x, y, opensbi_dst)
}

/// The abstract value of an optional image: its destination and its bytes.
pub open spec fn opt_image_view(img: Option<(u64, &Vec<u8>)>) -> Option<(u64, Seq<u8>)> {
    match img {
        Some((addr, data)) => Some((addr, data@)),
        None => None,
    }
}

/// Plans the image placement for one core: cache enable with read-back, one
/// interconnect write per present image, and the eight redundant
/// reset-vector writes carrying the primary firmware address.
pub fn place_ops(
    l2cpu: u32,
    opensbi_dst: u64,
    opensbi: &Vec<u8>,
    rootfs_dst: u64,
    rootfs: &Vec<u8>,
    kernel: Option<(u64, &Vec<u8>)>,
    dtb: Option<(u64, &Vec<u8>)>,
) -> (r: Vec<ChipOp>)
    requires
        l2cpu < 4,
    ensures
        chip_ops_view(r@) == place_plan(
            l2cpu,
            opensbi_dst,
            opensbi@,
            rootfs_dst,
            rootfs@,
            opt_image_view(kernel),
            opt_image_view(dtb),
        ),
{
    let (x, y) = tile_coords(l2cpu);
    let mut ops: Vec<ChipOp> = Vec::new();
    ops.push(ChipOp::NocWrite32 { x, y, addr: L3_CACHE_ENABLE_ADDR, value: L3_CACHE_ENABLE_ALL });
    ops.push(ChipOp::NocRead32 { x, y, addr: L3_CACHE_ENABLE_ADDR });
    ops.push(ChipOp::NocWrite { x, y, addr: opensbi_dst, data: copy_bytes(opensbi) });
    ops.push(ChipOp::NocWrite { x, y, addr: rootfs_dst, data: copy_bytes(rootfs) });
    if let Some((addr, data)) = kernel {
        ops.push(ChipOp::NocWrite { x, y, addr, data: copy_bytes(data) });
    }
    if let Some((addr, data)) = dtb {
        ops.push(ChipOp::NocWrite { x, y, addr, data: copy_bytes(data) });
    }
    let lo = (opensbi_dst & 0xffffffff) as u32;
    let hi = (opensbi_dst >> 32) as u32;
    ops.push(ChipOp::NocWrite32 { x, y, addr: RESET_VECTOR_BASE + 0, value: lo });
    ops.push(ChipOp::NocWrite32 { x, y, addr: RESET_VECTOR_BASE + 4, value: hi });
    ops.push(ChipOp::NocWrite32 { x, y, addr: RESET_VECTOR_BASE + 8, value: lo });
    ops.push(ChipOp::NocWrite32 { x, y, addr: RESET_VECTOR_BASE + 12, value: hi });
    ops.push(ChipOp::NocWrite32 { x, y, addr: RESET_VECTOR_BASE + 16, value: lo });
    ops.push(ChipOp::NocWrite32 { x, y, addr: RESET_VECTOR_BASE + 20, value: hi });
    ops.push(ChipOp::NocWrite32 { x, y, addr: RESET_VECTOR_BASE + 24, value: lo });
    ops.push(ChipOp::NocWrite32 { x, y, addr: RESET_VECTOR_BASE + 28, value: hi });
    proof {
        assert(chip_ops_view(ops@) =~= place_plan(
            l2cpu,
            opensbi_dst,
            opensbi@,
            rootfs_dst,
            rootfs@,
            opt_image_view(kernel),
            opt_image_view(dtb),
        ));
    }
    ops
}

/// The eight writes that configure a core's four prefetcher control blocks:
/// a fixed pair of control values at each fixed block offset.
pub open spec fn prefetch_plan(l2cpu: u32) -> Seq<OpSpec> {
    let x = spec_tile_coords(l2cpu as int).0;
    let y = spec_tile_coords(l2cpu as int).1;
    seq![
        OpSpec::NocWrite32 { x, y, addr: (L2_PREFETCH_BASE + 0x0000) as u64, value: L2_PREFETCH_CTRL0 },
        OpSpec::NocWrite32 { x, y, addr: (L2_PREFETCH_BASE + 0x0004) as u64, value: L2_PREFETCH_CTRL1 },
        OpSpec::NocWrite32 { x, y, addr: (L2_PREFETCH_BASE + 0x2000) as u64, value: L2_PREFETCH_CTRL0 },
        OpSpec::NocWrite32 { x, y, addr: (L2_PREFETCH_BASE + 0x2004) as u64, value: L2_PREFETCH_CTRL1 },
        OpSpec::NocWrite32 { x, y, addr: (L2_PREFETCH_BASE + 0x4000) as u64, value: L2_PREFETCH_CTRL0 },
        OpSpec::NocWrite32 { x, y, addr: (L2_PREFETCH_BASE + 0x4004) as u64, value: L2_PREFETCH_CTRL1 },
        OpSpec::NocWrite32 { x, y, addr: (L2_PREFETCH_BASE + 0x6000) as u64, value: L2_PREFETCH_CTRL0 },
        OpSpec::NocWrite32 { x, y, addr: (L2_PREFETCH_BASE + 0x6004) as u64, value: L2_PREFETCH_CTRL1 },
    ]
}

/// Plans the prefetcher configuration of one core.
pub fn prefetch_ops(l2cpu: u32) -> (r: Vec<ChipOp>)
    requires
        l2cpu < 4,
    ensures
        chip_ops_view(r@) == prefetch_plan(l2cpu),
{
    let (x, y) = tile_coords(l2cpu);
    let mut ops: Vec<ChipOp> = Vec::new();
    ops.push(ChipOp::NocWrite32 { x, y, addr: L2_PREFETCH_BASE + 0x0000, value: L2_PREFETCH_CTRL0 });
    ops.push(ChipOp::NocWrite32 { x, y, addr: L2_PREFETCH_BASE + 0x0004, value: L2_PREFETCH_CTRL1 });
    ops.push(ChipOp::NocWrite32 { x, y, addr: L2_PREFETCH_BASE + 0x2000, value: L2_PREFETCH_CTRL0 });
    ops.push(ChipOp::NocWrite32 { x, y, addr: L2_PREFETCH_BASE + 0x2004, value: L2_PREFETCH_CTRL1 });
    ops.push(ChipOp::NocWrite32 { x, y, addr: L2_PREFETCH_BASE + 0x4000, value: L2_PREFETCH_CTRL0 });
    ops.push(ChipOp::NocWrite32 { x, y, addr: L2_PREFETCH_BASE + 0x4004, value: L2_PREFETCH_CTRL1 });
    ops.push(ChipOp::NocWrite32 { x, y, addr: L2_PREFETCH_BASE + 0x6000, value: L2_PREFETCH_CTRL0 });
    ops.push(ChipOp::NocWrite32 { x, y, addr: L2_PREFETCH_BASE + 0x6004, value: L2_PREFETCH_CTRL1 });
    proof {
        assert(chip_ops_view(ops@) =~= prefetch_plan(l2cpu));
    }
    ops
}

/// The combined reset register value with every requested core's reset bit
/// raised over the current value: the bits of the first `n` requested cores,
/// each at position index plus four, accumulated into one value for a single
/// read-modify-write.
pub open spec fn spec_reset_value(current: u32, cores: Seq<u32>, n: int) -> u32
    decreases n,
{
    if n <= 0 {
        current
    } else {
        spec_reset_value(current, cores, n - 1) | (1u32 << ((cores[n - 1] + 4) as u32))
    }
}

/// Accumulates every requested core's reset bit into the current register
/// value, so that one combined write covers all cores; per-core writes would
/// race against each other's read-modify-write.
pub fn reset_register_value(current: u32, cores: &Vec<u32>) -> (r: u32)
    requires
        forall|i: int| 0 <= i < cores@.len() ==> cores@[i] < 4,
    ensures
        r == spec_reset_value(current, cores@, cores@.len() as int),
{
    let n = cores.len();
    let mut value = current;
    let mut i: usize = 0;
    while i < n
        invariant
            n == cores@.len(),
            i <= n,
            forall|j: int| 0 <= j < cores@.len() ==> cores@[j] < 4,
            value == spec_reset_value(current, cores@, i as int),
        decreases n - i,
    {
        value = value | (1u32 << (cores[i] + 4));
        i = i + 1;
    }
    value
}

/// Plans the combined reset write: one write of the accumulated value to the
/// reset register, then a read-back to confirm the write landed.
pub fn reset_write_ops(current: u32, cores: &Vec<u32>) -> (r: Vec<ChipOp>)
    requires
        forall|i: int| 0 <= i < cores@.len() ==> cores@[i] < 4,
    ensures
        chip_ops_view(r@) == seq![
            OpSpec::AxiWrite32 {
                addr: L2CPU_RESET_REG_ADDR,
                value: spec_reset_value(current, cores@, cores@.len() as int),
            },
            OpSpec::AxiRead32 { addr: L2CPU_RESET_REG_ADDR },
        ],
{
    let value = reset_register_value(current, cores);
    let mut ops: Vec<ChipOp> = Vec::new();
    ops.push(ChipOp::AxiWrite32 { addr: L2CPU_RESET_REG_ADDR, value });
    ops.push(ChipOp::AxiRead32 { addr: L2CPU_RESET_REG_ADDR });
    proof {
        assert(chip_ops_view(ops@) =~= seq![
            OpSpec::AxiWrite32 {
                addr: L2CPU_RESET_REG_ADDR,
                value: spec_reset_value(current, cores@, cores@.len() as int),
            },
            OpSpec::AxiRead32 { addr: L2CPU_RESET_REG_ADDR },
        ]);
    }
    ops
}

/// Everything a boot run is asked to do, as plain values: which cores, the
/// raw (unpadded) image bytes, the per-core destination addresses, and
/// whether the reset cycle was requested. The kernel image is shared by all
/// cores; the device-descriptor image is per core.
#[derive(Debug)]
pub struct BootRequest {
    pub boot: bool,
    pub cores: Vec<u32>,
    pub opensbi: Vec<u8>,
    pub opensbi_dst: Vec<u64>,
    pub rootfs: Vec<u8>,
    pub rootfs_dst: Vec<u64>,
    pub kernel: Option<Vec<u8>>,
    pub kernel_dst: Option<Vec<u64>>,
    pub dtb: Option<Vec<Vec<u8>>>,
    pub dtb_dst: Option<Vec<u64>>,
}

/// The operations a validated boot request unfolds into. The driver performs
/// `place` first; then, only if `run_reset_cycle` is set, the reset cycle
/// (clock down, combined reset write, clock up); then `prefetch`.
#[derive(Debug)]
pub struct BootPlan {
    pub place: Vec<ChipOp>,
    pub run_reset_cycle: bool,
    pub prefetch: Vec<ChipOp>,
}

/// The placement operations of the `i`-th requested core: its images padded
/// to a 4-byte boundary, written to its per-core destinations. An optional
/// image is placed only when both its bytes and its destination list were
/// supplied.
pub open spec fn core_place_plan(req: &BootRequest, i: int) -> Seq<OpSpec> {
    place_plan(
        req.cores@[i],
        req.opensbi_dst@[i],
        padded(req.opensbi@),
        req.rootfs_dst@[i],
        padded(req.rootfs@),
        if req.kernel is Some && req.kernel_dst is Some {
            Some((req.kernel_dst.unwrap()@[i], padded(req.kernel.unwrap()@)))
        } else {
            None
        },
        if req.dtb is Some && req.dtb_dst is Some {
            Some((req.dtb_dst.unwrap()@[i], padded(req.dtb.unwrap()@[i]@)))
        } else {
            None
        },
    )
}

/// The placement operations of the first `n` requested cores, in request
/// order.
pub open spec fn place_plan_all(req: &BootRequest, n: int) -> Seq<OpSpec>
    decreases n,
{
    if n <= 0 {
        Seq::empty()
    } else {
        place_plan_all(req, n - 1) + core_place_plan(req, n - 1)
    }
}

/// The prefetcher configuration of the first `n` requested cores, in request
/// order.
pub open spec fn prefetch_plan_all(cores: Seq<u32>, n: int) -> Seq<OpSpec>
    decreases n,
{
    if n <= 0 {
        Seq::empty()
    } else {
        prefetch_plan_all(cores, n - 1) + prefetch_plan(cores[n - 1])
    }
}

/// The first validation error of a boot request, in validation order: core
/// index range first, then argument-list counts, then the harvesting
/// bitmaps.
pub open spec fn request_error(req: &BootRequest, enabled_l2cpu: u32, enabled_gddr: u32) -> Option<
    BootError,
> {
    let n = req.cores@.len() as int;
    if index_error(req.cores@, n) is Some {
        index_error(req.cores@, n)
    } else if counts_error(
        req.cores@.len() as usize,
        req.rootfs_dst@.len() as usize,
        req.opensbi_dst@.len() as usize,
        match req.kernel_dst {
            Some(v) => Some(v@.len() as usize),
            None => None,
        },
        match req.dtb_dst {
            Some(v) => Some(v@.len() as usize),
            None => None,
        },
        match req.dtb {
            Some(v) => Some(v@.len() as usize),
            None => None,
        },
    ) is Some {
        counts_error(
            req.cores@.len() as usize,
            req.rootfs_dst@.len() as usize,
            req.opensbi_dst@.len() as usize,
            match req.kernel_dst {
                Some(v) => Some(v@.len() as usize),
                None => None,
            },
            match req.dtb_dst {
                Some(v) => Some(v@.len() as usize),
                None => None,
            },
            match req.dtb {
                Some(v) => Some(v@.len() as usize),
                None => None,
            },
        )
    } else {
        harvest_error(req.cores@, enabled_l2cpu, enabled_gddr, n)
    }
}

/// Whether every image a request carries can be padded without overflowing a
/// machine length.
pub open spec fn images_paddable(req: &BootRequest) -> bool {
    &&& req.opensbi@.len() + 3 <= usize::MAX
    &&& req.rootfs@.len() + 3 <= usize::MAX
    &&& (req.kernel matches Some(k) ==> k@.len() + 3 <= usize::MAX)
    &&& (req.dtb matches Some(d) ==> forall|i: int|
        0 <= i < d@.len() ==> (#[trigger] d@[i])@.len() + 3 <= usize::MAX)
}

/// Validates a boot request and unfolds it into the full operation plan:
/// the first failed validation is reported and nothing is planned, so no
/// chip operation precedes a validation failure; otherwise every requested
/// core's placement operations come in request order, the reset cycle is
/// planned exactly when boot was requested, and every core's prefetcher
/// configuration follows.
pub fn build_boot_plan(req: &BootRequest, enabled_l2cpu: u32, enabled_gddr: u32) -> (r: Result<
    BootPlan,
    BootError,
>)
    requires
        images_paddable(req),
    ensures
        r is Ok <==> request_error(req, enabled_l2cpu, enabled_gddr) is None,
        r matches Err(e) ==> request_error(req, enabled_l2cpu, enabled_gddr) == Some(e),
        r matches Ok(plan) ==> {
            &&& plan.run_reset_cycle == req.boot
            &&& chip_ops_view(plan.place@) == place_plan_all(req, req.cores@.len() as int)
            &&& chip_ops_view(plan.prefetch@) == prefetch_plan_all(
                req.cores@,
                req.cores@.len() as int,
            )
        },
{
    match validate_core_indices(&req.cores) {
        Err(e) => {
            return Err(e);
        },
        Ok(()) => {},
    }
    let kernel_dst_len: Option<usize> = match &req.kernel_dst {
        Some(v) => Some(v.len()),
        None => None,
    };
    let dtb_dst_len: Option<usize> = match &req.dtb_dst {
        Some(v) => Some(v.len()),
        None => None,
    };
    let dtb_bin_len: Option<usize> = match &req.dtb {
        Some(v) => Some(v.len()),
        None => None,
    };
    match validate_arg_counts(
        req.cores.len(),
        req.rootfs_dst.len(),
        req.opensbi_dst.len(),
        kernel_dst_len,
        dtb_dst_len,
        dtb_bin_len,
    ) {
        Err(e) => {
            return Err(e);
        },
        Ok(()) => {},
    }
    match validate_harvesting(&req.cores, enabled_l2cpu, enabled_gddr) {
        Err(e) => {
            return Err(e);
        },
        Ok(()) => {},
    }

    let opensbi_padded = pad_image(copy_bytes(&req.opensbi));
    let rootfs_padded = pad_image(copy_bytes(&req.rootfs));
    let kernel_padded: Option<Vec<u8>> = match &req.kernel {
        Some(k) => Some(pad_image(copy_bytes(k))),
        None => None,
    };

    let n = req.cores.len();
    let mut place: Vec<ChipOp> = Vec::new();
    let mut i: usize = 0;
    while i < n
        invariant
            n == req.cores@.len(),
            i <= n,
            forall|j: int| 0 <= j < n ==> req.cores@[j] < 4,
            req.opensbi_dst@.len() == n,
            req.rootfs_dst@.len() == n,
            req.kernel_dst matches Some(v) ==> v@.len() == n,
            req.dtb_dst matches Some(v) ==> v@.len() == n,
            req.dtb matches Some(v) ==> v@.len() == n,
            images_paddable(req),
            opensbi_padded@ == padded(req.opensbi@),
            rootfs_padded@ == padded(req.rootfs@),
            kernel_padded is Some <==> req.kernel is Some,
            kernel_padded matches Some(k) ==> k@ == padded(req.kernel.unwrap()@),
            chip_ops_view(place@) == place_plan_all(req, i as int),
        decreases n - i,
    {
        let core = req.cores[i];
        let kernel_arg: Option<(u64, &Vec<u8>)> = match (&kernel_padded, &req.kernel_dst) {
            (Some(k), Some(kd)) => Some((kd[i], k)),
            _ => None,
        };
        let dtb_padded: Option<(u64, Vec<u8>)> = match (&req.dtb, &req.dtb_dst) {
            (Some(db), Some(dd)) => Some((dd[i], pad_image(copy_bytes(&db[i])))),
            _ => None,
        };
        let dtb_arg: Option<(u64, &Vec<u8>)> = match &dtb_padded {
            Some((a, d)) => Some((*a, d)),
            None => None,
        };
        let mut ops = place_ops(
            core,
            req.opensbi_dst[i],
            &opensbi_padded,
            req.rootfs_dst[i],
            &rootfs_padded,
            kernel_arg,
            dtb_arg,
        );
        proof {
            assert(chip_ops_view(ops@) == core_place_plan(req, i as int));
            lemma_chip_ops_view_add(place@, ops@);
        }
        place.append(&mut ops);
        i = i + 1;
    }

    let mut prefetch: Vec<ChipOp> = Vec::new();
    let mut i: usize = 0;
    while i < n
        invariant
            n == req.cores@.len(),
            i <= n,
            forall|j: int| 0 <= j < n ==> req.cores@[j] < 4,
            chip_ops_view(prefetch@) == prefetch_plan_all(req.cores@, i as int),
        decreases n - i,
    {
        let mut ops = prefetch_ops(req.cores[i]);
        proof {
            lemma_chip_ops_view_add(prefetch@, ops@);
        }
        prefetch.append(&mut ops);
        i = i + 1;
    }

    Ok(BootPlan { place, run_reset_cycle: req.boot, prefetch })
}

} // verus!

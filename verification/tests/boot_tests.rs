use l2cpu_boot::{
    ArgKind, BootError, BootRequest, ChipOp, build_boot_plan, gddr_enable_bit, pad_image,
    prefetch_ops, reset_register_value, reset_write_ops, tile_coords, validate_arg_counts,
    validate_core_indices, validate_harvesting,
};

#[test]
fn padding_seven_bytes_gives_eight() {
    let padded = pad_image(vec![1u8, 2, 3, 4, 5, 6, 7]);
    assert_eq!(padded.len(), 8);
    assert_eq!(padded, vec![1u8, 2, 3, 4, 5, 6, 7, 0]);
}

#[test]
fn padding_nine_bytes_gives_twelve() {
    let padded = pad_image(vec![9u8; 9]);
    assert_eq!(padded.len(), 12);
    assert_eq!(&padded[..9], &[9u8; 9]);
    assert_eq!(&padded[9..], &[0u8, 0, 0]);
}

#[test]
fn padding_keeps_aligned_input() {
    let padded = pad_image(vec![1u8, 2, 3, 4]);
    assert_eq!(padded, vec![1u8, 2, 3, 4]);
    assert!(pad_image(Vec::new()).is_empty());
}

#[test]
fn topology_tables() {
    assert_eq!(tile_coords(0), (8, 3));
    assert_eq!(tile_coords(1), (8, 9));
    assert_eq!(tile_coords(2), (8, 5));
    assert_eq!(tile_coords(3), (8, 7));
    assert_eq!(gddr_enable_bit(0), 5);
    assert_eq!(gddr_enable_bit(1), 6);
    assert_eq!(gddr_enable_bit(2), 7);
    assert_eq!(gddr_enable_bit(3), 7);
}

#[test]
fn core_index_out_of_range_is_rejected() {
    assert!(validate_core_indices(&vec![0, 1, 2, 3]).is_ok());
    assert_eq!(
        validate_core_indices(&vec![0, 4]),
        Err(BootError::CoreIndexOutOfRange { index: 4 })
    );
}

#[test]
fn harvested_core_is_rejected() {
    // Bit 2 of the enabled-core bitmap is clear: core 2 is harvested.
    let enabled_l2cpu = 0b1011u32;
    let enabled_gddr = 0xffu32;
    assert_eq!(
        validate_harvesting(&vec![2], enabled_l2cpu, enabled_gddr),
        Err(BootError::HarvestedCore { index: 2 })
    );
    assert!(validate_harvesting(&vec![0, 1, 3], enabled_l2cpu, enabled_gddr).is_ok());
}

#[test]
fn harvested_memory_is_rejected() {
    // Core 1 is enabled but its memory bank's bit (6) is clear.
    let enabled_l2cpu = 0xfu32;
    let enabled_gddr = 0xffu32 & !(1 << 6);
    assert_eq!(
        validate_harvesting(&vec![1], enabled_l2cpu, enabled_gddr),
        Err(BootError::HarvestedMemory { index: 1 })
    );
}

#[test]
fn argument_count_mismatches_are_rejected_in_order() {
    assert!(validate_arg_counts(2, 2, 2, Some(2), None, None).is_ok());
    assert_eq!(
        validate_arg_counts(2, 1, 2, None, None, None),
        Err(BootError::ArgumentCountMismatch {
            kind: ArgKind::RootfsDst,
            expected: 2,
            actual: 1
        })
    );
    assert_eq!(
        validate_arg_counts(2, 2, 3, None, None, None),
        Err(BootError::ArgumentCountMismatch {
            kind: ArgKind::OpensbiDst,
            expected: 2,
            actual: 3
        })
    );
    assert_eq!(
        validate_arg_counts(2, 2, 2, Some(1), None, None),
        Err(BootError::ArgumentCountMismatch {
            kind: ArgKind::KernelDst,
            expected: 2,
            actual: 1
        })
    );
    assert_eq!(
        validate_arg_counts(2, 2, 2, None, Some(3), None),
        Err(BootError::ArgumentCountMismatch {
            kind: ArgKind::DtbDst,
            expected: 2,
            actual: 3
        })
    );
    assert_eq!(
        validate_arg_counts(2, 2, 2, None, None, Some(1)),
        Err(BootError::ArgumentCountMismatch {
            kind: ArgKind::DtbBin,
            expected: 2,
            actual: 1
        })
    );
}

#[test]
fn reset_value_accumulates_all_requested_cores() {
    // One combined read-modify-write: all requested cores' bits in one value.
    assert_eq!(reset_register_value(0, &vec![0]), 1 << 4);
    assert_eq!(reset_register_value(0, &vec![0, 2, 3]), (1 << 4) | (1 << 6) | (1 << 7));
    assert_eq!(reset_register_value(0x3, &vec![1]), 0x3 | (1 << 5));
    let ops = reset_write_ops(0x100, &vec![0, 1]);
    assert_eq!(ops.len(), 2);
    match &ops[0] {
        ChipOp::AxiWrite32 { addr, value } => {
            assert_eq!(*addr, 0x80030014);
            assert_eq!(*value, 0x100 | (1 << 4) | (1 << 5));
        }
        other => panic!("expected the combined reset write, got {:?}", other),
    }
    match &ops[1] {
        ChipOp::AxiRead32 { addr } => assert_eq!(*addr, 0x80030014),
        other => panic!("expected the confirming read-back, got {:?}", other),
    }
}

fn request_core0() -> BootRequest {
    BootRequest {
        boot: false,
        cores: vec![0],
        opensbi: vec![0xaa; 8],
        opensbi_dst: vec![0x4000_0000],
        rootfs: vec![0xbb; 12],
        rootfs_dst: vec![0x5000_0000],
        kernel: None,
        kernel_dst: None,
        dtb: None,
        dtb_dst: None,
    }
}

#[test]
fn boot_plan_validation_failure_plans_nothing() {
    let mut req = request_core0();
    req.cores = vec![2];
    // Bit 2 clear: validation must fail before anything is planned.
    let r = build_boot_plan(&req, 0b1011, 0xff);
    assert_eq!(r.unwrap_err(), BootError::HarvestedCore { index: 2 });
}

#[test]
fn end_to_end_place_only_core0() {
    // Core 0 only, boot not requested, aligned rootfs and firmware, no
    // kernel or device descriptor.
    let req = request_core0();
    let plan = build_boot_plan(&req, 0xf, 0xff).unwrap();

    // The reset cycle is skipped.
    assert!(!plan.run_reset_cycle);

    let (x, y) = (8u8, 3u8);
    // Cache enable, read-back, two image writes, eight reset-vector writes.
    assert_eq!(plan.place.len(), 2 + 2 + 8);
    match &plan.place[0] {
        ChipOp::NocWrite32 { x: ox, y: oy, addr, value } => {
            assert_eq!((*ox, *oy), (x, y));
            assert_eq!(*addr, 0x02010008);
            assert_eq!(*value, 0xf);
        }
        other => panic!("expected the cache-enable write, got {:?}", other),
    }
    match &plan.place[1] {
        ChipOp::NocRead32 { addr, .. } => assert_eq!(*addr, 0x02010008),
        other => panic!("expected the cache read-back, got {:?}", other),
    }
    match &plan.place[2] {
        ChipOp::NocWrite { addr, data, .. } => {
            assert_eq!(*addr, 0x4000_0000);
            assert_eq!(data, &vec![0xaa; 8]);
        }
        other => panic!("expected the firmware image write, got {:?}", other),
    }
    match &plan.place[3] {
        ChipOp::NocWrite { addr, data, .. } => {
            assert_eq!(*addr, 0x5000_0000);
            assert_eq!(data, &vec![0xbb; 12]);
        }
        other => panic!("expected the rootfs image write, got {:?}", other),
    }
    // The firmware address fills four redundant 8-byte-stride slots, low
    // then high 32 bits each.
    let base = 0xfffff7fefff10000u64;
    for slot in 0..4u64 {
        match &plan.place[4 + 2 * slot as usize] {
            ChipOp::NocWrite32 { addr, value, .. } => {
                assert_eq!(*addr, base + slot * 8);
                assert_eq!(*value, 0x4000_0000);
            }
            other => panic!("expected a reset-vector low write, got {:?}", other),
        }
        match &plan.place[5 + 2 * slot as usize] {
            ChipOp::NocWrite32 { addr, value, .. } => {
                assert_eq!(*addr, base + slot * 8 + 4);
                assert_eq!(*value, 0);
            }
            other => panic!("expected a reset-vector high write, got {:?}", other),
        }
    }

    // Prefetch: a fixed pair of control values at four fixed offsets.
    assert_eq!(plan.prefetch.len(), 8);
    let expected: Vec<(u64, u32)> = vec![
        (0x02030000, 0x15811),
        (0x02030004, 0x38c84e),
        (0x02032000, 0x15811),
        (0x02032004, 0x38c84e),
        (0x02034000, 0x15811),
        (0x02034004, 0x38c84e),
        (0x02036000, 0x15811),
        (0x02036004, 0x38c84e),
    ];
    for (op, (eaddr, evalue)) in plan.prefetch.iter().zip(expected) {
        match op {
            ChipOp::NocWrite32 { x: ox, y: oy, addr, value } => {
                assert_eq!((*ox, *oy), (x, y));
                assert_eq!(*addr, eaddr);
                assert_eq!(*value, evalue);
            }
            other => panic!("expected a prefetcher write, got {:?}", other),
        }
    }
}

#[test]
fn boot_plan_pads_images_and_places_optional_ones() {
    let req = BootRequest {
        boot: true,
        cores: vec![1, 3],
        opensbi: vec![1u8; 7],
        opensbi_dst: vec![0x1000, 0x2000],
        rootfs: vec![2u8; 9],
        rootfs_dst: vec![0x3000, 0x4000],
        kernel: Some(vec![3u8; 5]),
        kernel_dst: Some(vec![0x5000, 0x6000]),
        dtb: Some(vec![vec![4u8; 2], vec![5u8; 3]]),
        dtb_dst: Some(vec![0x7000, 0x8000]),
    };
    let plan = build_boot_plan(&req, 0xf, 0xff).unwrap();
    assert!(plan.run_reset_cycle);
    // Per core: cache enable + read-back + four image writes + eight
    // reset-vector writes.
    assert_eq!(plan.place.len(), 2 * (2 + 4 + 8));
    // Second core's kernel write: padded to 8 bytes, at its own destination,
    // at the second core's coordinates.
    match &plan.place[14 + 4] {
        ChipOp::NocWrite { x, y, addr, data } => {
            assert_eq!((*x, *y), (8, 7));
            assert_eq!(*addr, 0x6000);
            assert_eq!(data, &vec![3u8, 3, 3, 3, 3, 0, 0, 0]);
        }
        other => panic!("expected the kernel image write, got {:?}", other),
    }
    // Second core's device-descriptor write: its own bytes, padded to 4.
    match &plan.place[14 + 5] {
        ChipOp::NocWrite { x, y, addr, data } => {
            assert_eq!((*x, *y), (8, 7));
            assert_eq!(*addr, 0x8000);
            assert_eq!(data, &vec![5u8, 5, 5, 0]);
        }
        other => panic!("expected the device-descriptor write, got {:?}", other),
    }
    assert_eq!(plan.prefetch.len(), 16);
}

#[test]
fn prefetch_ops_shape() {
    let ops = prefetch_ops(2);
    assert_eq!(ops.len(), 8);
    for op in &ops {
        match op {
            ChipOp::NocWrite32 { x, y, .. } => assert_eq!((*x, *y), (8, 5)),
            other => panic!("expected a prefetcher write, got {:?}", other),
        }
    }
}

use l2cpu_boot::{BootError, PLLCNTL1, PLLCNTL5, RegWrite, set_l2cpu_pll};

const PLL_CNTL1_ADDR: u64 = 0x80020504;
const PLL_CNTL5_ADDR: u64 = 0x80020514;

#[test]
fn cntl5_round_trip() {
    let bytes = [3u8, 7, 11, 15];
    let model = PLLCNTL5::from_bytes(&bytes);
    assert_eq!(model.to_bytes(), vec![3u8, 7, 11, 15]);
}

#[test]
fn cntl1_round_trip() {
    let bytes = [2u8, 1, 0x8c, 0x00];
    let model = PLLCNTL1::from_bytes(&bytes);
    assert_eq!(model.to_bytes(), vec![2u8, 1, 0x8c, 0x00]);
    let wide = [5u8, 9, 0x34, 0x12];
    let model = PLLCNTL1::from_bytes(&wide);
    assert_eq!(model.fbdiv, 0x1234);
    assert_eq!(model.to_bytes(), vec![5u8, 9, 0x34, 0x12]);
}

#[test]
fn step_write_count_equals_distance() {
    let mut model = PLLCNTL5::from_bytes(&[4u8, 4, 4, 4]);
    let writes = model.step(9, 2);
    assert_eq!(writes.len(), 5);
    assert_eq!(model.postdiv, [4u8, 4, 9, 4]);
    // Each write moves the stepped field by exactly one and carries the
    // full register image; the last write holds the target.
    let mut prev = 4u8;
    for w in &writes {
        assert_eq!(w.addr, PLL_CNTL5_ADDR);
        assert_eq!(w.data.len(), 4);
        assert_eq!(w.data[0], 4);
        assert_eq!(w.data[1], 4);
        assert_eq!(w.data[3], 4);
        assert_eq!(w.data[2], prev + 1);
        prev = w.data[2];
    }
    assert_eq!(writes.last().unwrap().data[2], 9);
}

#[test]
fn step_downward_and_no_step_when_at_target() {
    let mut model = PLLCNTL5::from_bytes(&[6u8, 0, 0, 0]);
    let writes = model.step(2, 0);
    assert_eq!(writes.len(), 4);
    assert_eq!(model.postdiv[0], 2);
    let writes = model.step(2, 0);
    assert!(writes.is_empty());
}

#[test]
fn step_fbdiv_counts_and_preserves_other_fields() {
    let mut model = PLLCNTL1::from_bytes(&[2u8, 1, 130, 0]);
    let writes = model.step_fbdiv(140);
    assert_eq!(writes.len(), 10);
    assert_eq!(model.fbdiv, 140);
    assert_eq!(model.refdiv, 2);
    assert_eq!(model.postdiv, 1);
    let mut prev = 130u16;
    for w in &writes {
        assert_eq!(w.addr, PLL_CNTL1_ADDR);
        assert_eq!(w.data[0], 2);
        assert_eq!(w.data[1], 1);
        let fb = u16::from_le_bytes([w.data[2], w.data[3]]);
        assert_eq!(fb, prev + 1);
        prev = fb;
    }
}

fn fbdiv_of(w: &RegWrite) -> u16 {
    u16::from_le_bytes([w.data[2], w.data[3]])
}

#[test]
fn set_frequency_200_targets() {
    // Start from the high operating point: fbdiv 140, post-dividers 1.
    let plan = set_l2cpu_pll(200, &[1u8, 1, 1, 1], &[2u8, 1, 140, 0]).unwrap();
    // Going down to 200 MHz: all four post-dividers rise to 15 (increases
    // first), then the feedback divider falls to 128, and no decreases.
    let last_cntl5 = plan.iter().filter(|w| w.addr == PLL_CNTL5_ADDR).last().unwrap();
    assert_eq!(last_cntl5.data, vec![15u8, 15, 15, 15]);
    let last_cntl1 = plan.iter().filter(|w| w.addr == PLL_CNTL1_ADDR).last().unwrap();
    assert_eq!(fbdiv_of(last_cntl1), 128);
    // 4 fields x 14 single steps, plus 12 feedback-divider steps.
    assert_eq!(plan.len(), 4 * 14 + 12);
}

#[test]
fn set_frequency_1750_targets() {
    let plan = set_l2cpu_pll(1750, &[15u8, 15, 15, 15], &[2u8, 1, 128, 0]).unwrap();
    let last_cntl5 = plan.iter().filter(|w| w.addr == PLL_CNTL5_ADDR).last().unwrap();
    assert_eq!(last_cntl5.data, vec![1u8, 1, 1, 1]);
    let last_cntl1 = plan.iter().filter(|w| w.addr == PLL_CNTL1_ADDR).last().unwrap();
    assert_eq!(fbdiv_of(last_cntl1), 140);
    assert_eq!(plan.len(), 4 * 14 + 12);
}

#[test]
fn set_frequency_rejects_unsupported() {
    let r = set_l2cpu_pll(1000, &[1u8, 1, 1, 1], &[2u8, 1, 140, 0]);
    assert_eq!(r.unwrap_err(), BootError::UnsupportedFrequency { mhz: 1000 });
}

#[test]
fn set_frequency_orders_increases_feedback_decreases() {
    // A mixed transition at the 1750 MHz point (post-divider targets 1):
    // field 0 starts at 0 (must increase to 1), field 1 starts at 5 (must
    // decrease to 1), fields 2 and 3 are already at target.
    let plan = set_l2cpu_pll(1750, &[0u8, 5, 1, 1], &[2u8, 1, 140, 0]).unwrap();
    // Expect: one increase write on CNTL5, then feedback writes on CNTL1
    // (already at target, so zero), then decrease writes on CNTL5.
    // fbdiv already 140 so the middle segment is empty; the increase
    // segment is exactly one write, the decrease segment four writes.
    assert_eq!(plan.len(), 1 + 0 + 4);
    assert_eq!(plan[0].addr, PLL_CNTL5_ADDR);
    assert_eq!(plan[0].data, vec![1u8, 5, 1, 1]);
    for (k, w) in plan[1..].iter().enumerate() {
        assert_eq!(w.addr, PLL_CNTL5_ADDR);
        assert_eq!(w.data, vec![1u8, 4 - k as u8, 1, 1]);
    }

    // A case with all three segments: start fbdiv 138.
    let plan = set_l2cpu_pll(1750, &[0u8, 5, 1, 1], &[2u8, 1, 138, 0]).unwrap();
    assert_eq!(plan.len(), 1 + 2 + 4);
    let addrs: Vec<u64> = plan.iter().map(|w| w.addr).collect();
    assert_eq!(
        addrs,
        vec![
            PLL_CNTL5_ADDR,
            PLL_CNTL1_ADDR,
            PLL_CNTL1_ADDR,
            PLL_CNTL5_ADDR,
            PLL_CNTL5_ADDR,
            PLL_CNTL5_ADDR,
            PLL_CNTL5_ADDR,
        ]
    );
    // Every increase completes before the feedback transition begins, and
    // every decrease begins only after it completes.
    let first_cntl1 = addrs.iter().position(|a| *a == PLL_CNTL1_ADDR).unwrap();
    let last_cntl1 = addrs.iter().rposition(|a| *a == PLL_CNTL1_ADDR).unwrap();
    for (k, w) in plan.iter().enumerate() {
        if w.addr == PLL_CNTL5_ADDR && k < first_cntl1 {
            assert!(w.data[0] > 0, "before the feedback writes only increases run");
        }
        if w.addr == PLL_CNTL5_ADDR && k > last_cntl1 {
            assert!(w.data[1] < 5, "after the feedback writes only decreases run");
        }
    }
}

//! Models of the two PLL control registers and the glitch-avoidance clock
//! transition controller.
//!
//! Changing a divider by more than one step at a time can glitch the PLL, so
//! every transition is planned as a sequence of single-step register writes;
//! the driver performs one write per step with a settle pause in between.

use vstd::prelude::*;

use crate::errors::BootError;
use crate::ops::{RegWrite, WriteSpec, reg_writes_view, lemma_reg_writes_view_add};

verus! {

/// Base address of the PLL that clocks the L2CPU cores.
pub const PLL4_BASE: u64 = 0x80020500;

/// Offset of the refdiv/postdiv/feedback-divider register.
pub const PLL_CNTL_1: u64 = 0x4;

/// Offset of the post-divider array register.
pub const PLL_CNTL_5: u64 = 0x14;

/// Address of the refdiv/postdiv/feedback-divider register.
pub const PLL_CNTL1_ADDR: u64 = PLL4_BASE + PLL_CNTL_1;

/// Address of the post-divider array register.
pub const PLL_CNTL5_ADDR: u64 = PLL4_BASE + PLL_CNTL_5;

/// Distance between two integers.
pub open spec fn abs_diff(a: int, b: int) -> nat {
    if a <= b {
        (b - a) as nat
    } else {
        (a - b) as nat
    }
}

/// The successive values a field takes when stepped by one at a time from
/// `cur` (exclusive) to `target` (inclusive).
pub open spec fn step_values(cur: int, target: int) -> Seq<int> {
    if cur <= target {
        Seq::new((target - cur) as nat, |k: int| cur + k + 1)
    } else {
        Seq::new((cur - target) as nat, |k: int| cur - k - 1)
    }
}

/// Stepping moves the field by exactly one per write, stays within the
/// interval spanned by the start and the target, takes exactly
/// `abs_diff(cur, target)` writes, and ends at the target.
pub proof fn lemma_step_values_single_step(cur: int, target: int)
    ensures
        step_values(cur, target).len() == abs_diff(cur, target),
        cur != target ==> step_values(cur, target).last() == target,
        forall|k: int|
            0 <= k < step_values(cur, target).len() ==> abs_diff(
                #[trigger] step_values(cur, target)[k],
                if k == 0 {
                    cur
                } else {
                    step_values(cur, target)[k - 1]
                },
            ) == 1,
        forall|k: int|
            0 <= k < step_values(cur, target).len() ==> {
                let lo = if cur <= target { cur } else { target };
                let hi = if cur <= target { target } else { cur };
                lo <= #[trigger] step_values(cur, target)[k] <= hi
            },
{
}

/// Model of the PLL post-divider register: four 8-bit divider fields,
/// one per PLL output phase, serialized byte-for-byte in field order.
#[derive(Debug)]
pub struct PLLCNTL5 {
    pub postdiv: [u8; 4],
}

/// The writes emitted while stepping post-divider field `field` of a register
/// currently holding `state` to `target`, one unit per write; each write
/// carries the full four-byte register image.
pub open spec fn cntl5_step_writes(state: Seq<u8>, field: int, target: u8) -> Seq<WriteSpec> {
    step_values(state[field] as int, target as int).map_values(
        |v: int| WriteSpec { addr: PLL_CNTL5_ADDR, data: state.update(field, v as u8) },
    )
}

impl PLLCNTL5 {
    /// The register's abstract value: the four post-divider fields in order.
    pub open spec fn view(&self) -> Seq<u8> {
        self.postdiv@
    }

    /// Builds the model from the register's first four bytes.
    pub fn from_bytes(data: &[u8]) -> (r: Self)
        requires
            data@.len() >= 4,
        ensures
            r@ == data@.take(4),
    {
        let postdiv: [u8; 4] = [data[0], data[1], data[2], data[3]];
        proof {
            assert(postdiv@ =~= data@.take(4));
        }
        Self { postdiv }
    }

    /// Serializes the model back to its four-byte wire form.
    pub fn to_bytes(&self) -> (r: Vec<u8>)
        ensures
            r@ == self@,
    {
        let mut bytes: Vec<u8> = Vec::new();
        bytes.push(self.postdiv[0]);
        bytes.push(self.postdiv[1]);
        bytes.push(self.postdiv[2]);
        bytes.push(self.postdiv[3]);
        proof {
            assert(bytes@ =~= self@);
        }
        bytes
    }

    /// Steps one post-divider field to `target` by single increments,
    /// planning one full-register write per increment. The number of planned
    /// writes equals the distance from the field's current value to `target`.
    pub fn step(&mut self, target: u8, field: usize) -> (writes: Vec<RegWrite>)
        requires
            field < 4,
        ensures
            final(self)@ == old(self)@.update(field as int, target),
            reg_writes_view(writes@) == cntl5_step_writes(old(self)@, field as int, target),
            writes@.len() == abs_diff(old(self)@[field as int] as int, target as int),
    {
        let ghost init = self@;
        let ghost plan = cntl5_step_writes(init, field as int, target);
        let mut writes: Vec<RegWrite> = Vec::new();
        while self.postdiv[field] != target
            invariant
                field < 4,
                init.len() == 4,
                plan == cntl5_step_writes(init, field as int, target),
                forall|i: int| 0 <= i < 4 && i != field ==> self@[i] == init[i],
                init[field as int] <= target ==> self@[field as int] == init[field as int]
                    + writes@.len(),
                init[field as int] > target ==> self@[field as int] == init[field as int]
                    - writes@.len(),
                writes@.len() <= abs_diff(init[field as int] as int, target as int),
                forall|j: int| 0 <= j < writes@.len() ==> #[trigger] writes@[j]@ == plan[j],
            decreases abs_diff(self@[field as int] as int, target as int),
        {
            let cur = self.postdiv[field];
            let next: u8 = if target > cur {
                cur + 1
            } else {
                cur - 1
            };
            self.postdiv[field] = next;
            let data = self.to_bytes();
            proof {
                let k = writes@.len() as int;
                assert(self@ =~= init.update(field as int, next));
                assert(plan.len() == abs_diff(init[field as int] as int, target as int));
                assert(k < plan.len());
                assert(step_values(init[field as int] as int, target as int)[k] == next as int);
                assert((step_values(init[field as int] as int, target as int)[k] as u8) == next);
                assert(plan[k] == (WriteSpec {
                    addr: PLL_CNTL5_ADDR,
                    data: init.update(field as int, next),
                }));
            }
            writes.push(RegWrite { addr: PLL_CNTL5_ADDR, data });
        }
        proof {
            assert(final(self)@ =~= init.update(field as int, target));
            assert(reg_writes_view(writes@) =~= plan);
        }
        writes
    }
}

/// Reading `from_bytes` back from `to_bytes` recovers every post-divider
/// field: the four-byte serialization of the post-divider register is the
/// identity on its abstract value.
pub proof fn lemma_cntl5_round_trip(postdiv: Seq<u8>)
    requires
        postdiv.len() == 4,
    ensures
        postdiv.take(4) == postdiv,
{
    assert(postdiv.take(4) =~= postdiv);
}

/// The 16-bit value stored little-endian in bytes `b2` (low) and `b3` (high).
pub open spec fn u16_from_le(b2: u8, b3: u8) -> u16 {
    (b2 as u16) | ((b3 as u16) << 8)
}

/// The four-byte wire form of the refdiv/postdiv/feedback-divider register:
/// refdiv, then postdiv, then the feedback divider little-endian.
pub open spec fn cntl1_bytes_of(refdiv: u8, postdiv: u8, fbdiv: u16) -> Seq<u8> {
    seq![refdiv, postdiv, (fbdiv & 0xff) as u8, ((fbdiv >> 8) & 0xff) as u8]
}

/// Model of the refdiv/postdiv/feedback-divider register. Only the feedback
/// divider is ever transitioned; refdiv and postdiv are read back from the
/// chip and preserved unchanged.
#[derive(Debug)]
pub struct PLLCNTL1 {
    pub refdiv: u8,
    pub postdiv: u8,
    pub fbdiv: u16,
}

/// The writes emitted while stepping the feedback divider from `fbdiv` to
/// `target`, one unit per write; each write carries the full register image
/// with refdiv and postdiv unchanged.
pub open spec fn cntl1_step_writes(refdiv: u8, postdiv: u8, fbdiv: u16, target: u16) -> Seq<
    WriteSpec,
> {
    step_values(fbdiv as int, target as int).map_values(
        |v: int| WriteSpec { addr: PLL_CNTL1_ADDR, data: cntl1_bytes_of(refdiv, postdiv, v as u16) },
    )
}

impl PLLCNTL1 {
    /// Builds the model from the register's first four bytes.
    pub fn from_bytes(data: &[u8]) -> (r: Self)
        requires
            data@.len() >= 4,
        ensures
            r.refdiv == data@[0],
            r.postdiv == data@[1],
            r.fbdiv == u16_from_le(data@[2], data@[3]),
    {
        Self {
            refdiv: data[0],
            postdiv: data[1],
            fbdiv: (data[2] as u16) | ((data[3] as u16) << 8),
        }
    }

    /// Serializes the model back to its four-byte wire form.
    pub fn to_bytes(&self) -> (r: Vec<u8>)
        ensures
            r@ == cntl1_bytes_of(self.refdiv, self.postdiv, self.fbdiv),
    {
        let mut bytes: Vec<u8> = Vec::new();
        bytes.push(self.refdiv);
        bytes.push(self.postdiv);
        bytes.push((self.fbdiv & 0xff) as u8);
        bytes.push(((self.fbdiv >> 8) & 0xff) as u8);
        proof {
            assert(bytes@ =~= cntl1_bytes_of(self.refdiv, self.postdiv, self.fbdiv));
        }
        bytes
    }

    /// Steps the feedback divider to `target` by single increments, planning
    /// one full-register write per increment. The number of planned writes
    /// equals the distance from the current feedback divider to `target`.
    pub fn step_fbdiv(&mut self, target: u16) -> (writes: Vec<RegWrite>)
        ensures
            final(self).refdiv == old(self).refdiv,
            final(self).postdiv == old(self).postdiv,
            final(self).fbdiv == target,
            reg_writes_view(writes@) == cntl1_step_writes(
                old(self).refdiv,
                old(self).postdiv,
                old(self).fbdiv,
                target,
            ),
            writes@.len() == abs_diff(old(self).fbdiv as int, target as int),
    {
        let ghost init = old(self).fbdiv;
        let ghost plan = cntl1_step_writes(self.refdiv, self.postdiv, init, target);
        let mut writes: Vec<RegWrite> = Vec::new();
        while self.fbdiv != target
            invariant
                self.refdiv == old(self).refdiv,
                self.postdiv == old(self).postdiv,
                plan == cntl1_step_writes(self.refdiv, self.postdiv, init, target),
                init <= target ==> self.fbdiv == init + writes@.len(),
                init > target ==> self.fbdiv == init - writes@.len(),
                writes@.len() <= abs_diff(init as int, target as int),
                forall|j: int| 0 <= j < writes@.len() ==> #[trigger] writes@[j]@ == plan[j],
            decreases abs_diff(self.fbdiv as int, target as int),
        {
            let cur = self.fbdiv;
            let next: u16 = if target > cur {
                cur + 1
            } else {
                cur - 1
            };
            self.fbdiv = next;
            let data = self.to_bytes();
            proof {
                let k = writes@.len() as int;
                assert(plan.len() == abs_diff(init as int, target as int));
                assert(k < plan.len());
                assert(step_values(init as int, target as int)[k] == next as int);
                assert((step_values(init as int, target as int)[k] as u16) == next);
            }
            writes.push(RegWrite { addr: PLL_CNTL1_ADDR, data });
        }
        proof {
            assert(reg_writes_view(writes@) =~= plan);
        }
        writes
    }
}

/// Reading `from_bytes` back from `to_bytes` recovers refdiv, postdiv and
/// the feedback divider exactly: the little-endian split of the feedback
/// divider loses nothing.
pub proof fn lemma_cntl1_round_trip(refdiv: u8, postdiv: u8, fbdiv: u16)
    ensures
        cntl1_bytes_of(refdiv, postdiv, fbdiv).len() == 4,
        cntl1_bytes_of(refdiv, postdiv, fbdiv)[0] == refdiv,
        cntl1_bytes_of(refdiv, postdiv, fbdiv)[1] == postdiv,
        u16_from_le(
            cntl1_bytes_of(refdiv, postdiv, fbdiv)[2],
            cntl1_bytes_of(refdiv, postdiv, fbdiv)[3],
        ) == fbdiv,
{
    assert(((fbdiv & 0xff) as u8 as u16) | (((fbdiv >> 8) & 0xff) as u8 as u16) << 8 == fbdiv)
        by (bit_vector);
}

/// Whether a field must move during the given phase: in the increase phase a
/// field is stepped only when its target lies above its initial value, in
/// the decrease phase only when it lies below.
pub open spec fn needs_step(init: Seq<u8>, tgt: Seq<u8>, increase: bool, f: int) -> bool {
    if increase {
        tgt[f] > init[f]
    } else {
        tgt[f] < init[f]
    }
}

/// The register contents when the phase reaches field `f`: fields before `f`
/// that the phase applies to are already at their targets, all others still
/// hold their initial values.
pub open spec fn phase_state(init: Seq<u8>, tgt: Seq<u8>, increase: bool, f: int) -> Seq<u8> {
    Seq::new(
        4,
        |i: int|
            if i < f && needs_step(init, tgt, increase, i) {
                tgt[i]
            } else {
                init[i]
            },
    )
}

/// The writes the phase emits for field `f` alone: a full single-step run to
/// the target if the phase applies to the field, nothing otherwise.
pub open spec fn field_phase_writes(init: Seq<u8>, tgt: Seq<u8>, increase: bool, f: int) -> Seq<
    WriteSpec,
> {
    if needs_step(init, tgt, increase, f) {
        cntl5_step_writes(phase_state(init, tgt, increase, f), f, tgt[f])
    } else {
        Seq::empty()
    }
}

/// All writes of one post-divider phase: the four fields in register order,
/// each stepped fully to its target before the next begins.
pub open spec fn phase_writes(init: Seq<u8>, tgt: Seq<u8>, increase: bool) -> Seq<WriteSpec> {
    field_phase_writes(init, tgt, increase, 0) + field_phase_writes(init, tgt, increase, 1)
        + field_phase_writes(init, tgt, increase, 2) + field_phase_writes(init, tgt, increase, 3)
}

/// The post-divider register after the increase phase: every field at the
/// larger of its initial value and its target.
pub open spec fn after_increase(init: Seq<u8>, tgt: Seq<u8>) -> Seq<u8> {
    phase_state(init, tgt, true, 4)
}

/// The complete write plan of a frequency transition: post-divider increases
/// first (they only ever lower the output frequency), then the feedback
/// divider, then post-divider decreases, so the instantaneous frequency
/// never exceeds the larger of the start and target frequencies.
pub open spec fn pll_plan(
    init5: Seq<u8>,
    refdiv: u8,
    postdiv: u8,
    fbdiv: u16,
    fb_target: u16,
    pd_target: Seq<u8>,
) -> Seq<WriteSpec> {
    phase_writes(init5, pd_target, true) + cntl1_step_writes(refdiv, postdiv, fbdiv, fb_target)
        + phase_writes(after_increase(init5, pd_target), pd_target, false)
}

/// The closed operating-point table: the feedback-divider and post-divider
/// targets for each supported frequency, and nothing for any other request.
pub open spec fn freq_targets(mhz: u32) -> Option<(u16, Seq<u8>)> {
    if mhz == 200 {
        Some((128u16, seq![15u8, 15u8, 15u8, 15u8]))
    } else if mhz == 1750 {
        Some((140u16, seq![1u8, 1u8, 1u8, 1u8]))
    } else {
        None
    }
}

/// Runs one post-divider phase over all four fields in register order,
/// stepping exactly the fields the phase applies to.
fn apply_phase(post: &mut PLLCNTL5, targets: &[u8; 4], increase: bool) -> (writes: Vec<RegWrite>)
    ensures
        final(post)@ == phase_state(old(post)@, targets@, increase, 4),
        reg_writes_view(writes@) == phase_writes(old(post)@, targets@, increase),
{
    let ghost init = post@;
    let ghost tgt = targets@;
    let mut writes: Vec<RegWrite> = Vec::new();
    proof {
        assert(phase_state(init, tgt, increase, 0) =~= init);
    }

    let cond0 = if increase {
        targets[0] > post.postdiv[0]
    } else {
        targets[0] < post.postdiv[0]
    };
    if cond0 {
        let mut w = post.step(targets[0], 0);
        proof {
            lemma_reg_writes_view_add(writes@, w@);
        }
        writes.append(&mut w);
    }
    proof {
        assert(post@ =~= phase_state(init, tgt, increase, 1));
        assert(reg_writes_view(writes@) =~= field_phase_writes(init, tgt, increase, 0));
    }

    let cond1 = if increase {
        targets[1] > post.postdiv[1]
    } else {
        targets[1] < post.postdiv[1]
    };
    if cond1 {
        let mut w = post.step(targets[1], 1);
        proof {
            lemma_reg_writes_view_add(writes@, w@);
        }
        writes.append(&mut w);
    }
    proof {
        assert(post@ =~= phase_state(init, tgt, increase, 2));
        assert(reg_writes_view(writes@) =~= field_phase_writes(init, tgt, increase, 0)
            + field_phase_writes(init, tgt, increase, 1));
    }

    let cond2 = if increase {
        targets[2] > post.postdiv[2]
    } else {
        targets[2] < post.postdiv[2]
    };
    if cond2 {
        let mut w = post.step(targets[2], 2);
        proof {
            lemma_reg_writes_view_add(writes@, w@);
        }
        writes.append(&mut w);
    }
    proof {
        assert(post@ =~= phase_state(init, tgt, increase, 3));
        assert(reg_writes_view(writes@) =~= field_phase_writes(init, tgt, increase, 0)
            + field_phase_writes(init, tgt, increase, 1) + field_phase_writes(
            init,
            tgt,
            increase,
            2,
        ));
    }

    let cond3 = if increase {
        targets[3] > post.postdiv[3]
    } else {
        targets[3] < post.postdiv[3]
    };
    if cond3 {
        let mut w = post.step(targets[3], 3);
        proof {
            lemma_reg_writes_view_add(writes@, w@);
        }
        writes.append(&mut w);
    }
    proof {
        assert(post@ =~= phase_state(init, tgt, increase, 4));
        assert(reg_writes_view(writes@) =~= phase_writes(init, tgt, increase));
    }

    writes
}

/// Plans the full transition of the L2CPU PLL to the requested frequency,
/// from the current contents of the two divider registers as read from the
/// chip. Returns the ordered single-step writes the driver must perform, or
/// a configuration error if the frequency is not in the operating-point
/// table; nothing is planned in that case, so no register is ever touched
/// for an unsupported request.
pub fn set_l2cpu_pll(mhz: u32, cntl5_bytes: &[u8], cntl1_bytes: &[u8]) -> (r: Result<
    Vec<RegWrite>,
    BootError,
>)
    requires
        cntl5_bytes@.len() >= 4,
        cntl1_bytes@.len() >= 4,
    ensures
        r is Ok <==> freq_targets(mhz) is Some,
        freq_targets(mhz) is None ==> r == Err::<Vec<RegWrite>, BootError>(
            BootError::UnsupportedFrequency { mhz },
        ),
        r matches Ok(writes) ==> reg_writes_view(writes@) == pll_plan(
            cntl5_bytes@.take(4),
            cntl1_bytes@[0],
            cntl1_bytes@[1],
            u16_from_le(cntl1_bytes@[2], cntl1_bytes@[3]),
            freq_targets(mhz).unwrap().0,
            freq_targets(mhz).unwrap().1,
        ),
{
    let (fb_target, pd_targets): (u16, [u8; 4]) = match mhz {
        200 => (128, [15, 15, 15, 15]),
        1750 => (140, [1, 1, 1, 1]),
        _ => {
            return Err(BootError::UnsupportedFrequency { mhz });
        },
    };
    proof {
        assert(pd_targets@ =~= freq_targets(mhz).unwrap().1);
    }

    let mut post = PLLCNTL5::from_bytes(cntl5_bytes);
    let mut fb = PLLCNTL1::from_bytes(cntl1_bytes);
    let ghost init5 = post@;

    let mut writes = apply_phase(&mut post, &pd_targets, true);

    let mut fb_writes = fb.step_fbdiv(fb_target);
    proof {
        lemma_reg_writes_view_add(writes@, fb_writes@);
    }
    writes.append(&mut fb_writes);

    let mut dec_writes = apply_phase(&mut post, &pd_targets, false);
    proof {
        lemma_reg_writes_view_add(writes@, dec_writes@);
    }
    writes.append(&mut dec_writes);

    Ok(writes)
}

/// The ordering law of a frequency transition: the plan is exactly the
/// increase writes, then the feedback-divider writes, then the decrease
/// writes, and the three segments touch only their own register, so every
/// post-divider increase completes before the feedback-divider transition
/// begins, and every decrease begins only after it completes.
pub proof fn lemma_transition_ordering(
    init5: Seq<u8>,
    refdiv: u8,
    postdiv: u8,
    fbdiv: u16,
    fb_target: u16,
    pd_target: Seq<u8>,
)
    ensures
        ({
            let inc = phase_writes(init5, pd_target, true);
            let fb = cntl1_step_writes(refdiv, postdiv, fbdiv, fb_target);
            let dec = phase_writes(after_increase(init5, pd_target), pd_target, false);
            &&& pll_plan(init5, refdiv, postdiv, fbdiv, fb_target, pd_target) == inc + fb + dec
            &&& forall|i: int| 0 <= i < inc.len() ==> (#[trigger] inc[i]).addr == PLL_CNTL5_ADDR
            &&& forall|i: int| 0 <= i < fb.len() ==> (#[trigger] fb[i]).addr == PLL_CNTL1_ADDR
            &&& forall|i: int| 0 <= i < dec.len() ==> (#[trigger] dec[i]).addr == PLL_CNTL5_ADDR
        }),
{
    lemma_phase_writes_addr(init5, pd_target, true);
    lemma_phase_writes_addr(after_increase(init5, pd_target), pd_target, false);
}

/// Whether `v` lies in the closed interval spanned by `a` and `b`.
pub open spec fn between(v: int, a: int, b: int) -> bool {
    if a <= b {
        a <= v <= b
    } else {
        b <= v <= a
    }
}

/// What the excursion bound says of one planned write: a post-divider write
/// keeps every field between its initial value and its target, and a
/// feedback-divider write keeps refdiv and postdiv unchanged and the
/// feedback divider between its initial value and its target.
pub open spec fn write_bounded(
    w: WriteSpec,
    init5: Seq<u8>,
    refdiv: u8,
    postdiv: u8,
    fbdiv: u16,
    fb_target: u16,
    pd_target: Seq<u8>,
) -> bool {
    &&& w.data.len() == 4
    &&& w.addr == PLL_CNTL5_ADDR ==> forall|i: int|
        0 <= i < 4 ==> between(#[trigger] w.data[i] as int, init5[i] as int, pd_target[i] as int)
    &&& w.addr == PLL_CNTL1_ADDR ==> {
        &&& w.data[0] == refdiv
        &&& w.data[1] == postdiv
        &&& between(u16_from_le(w.data[2], w.data[3]) as int, fbdiv as int, fb_target as int)
    }
}

/// Every write of a feedback-divider transition keeps refdiv and postdiv
/// unchanged and its feedback-divider value between start and target.
proof fn lemma_cntl1_steps_bounded(refdiv: u8, postdiv: u8, fbdiv: u16, target: u16)
    ensures
        forall|k: int|
            0 <= k < cntl1_step_writes(refdiv, postdiv, fbdiv, target).len() ==> {
                let w = #[trigger] cntl1_step_writes(refdiv, postdiv, fbdiv, target)[k];
                &&& w.data.len() == 4
                &&& w.data[0] == refdiv
                &&& w.data[1] == postdiv
                &&& between(u16_from_le(w.data[2], w.data[3]) as int, fbdiv as int, target as int)
            },
{
    assert forall|k: int|
        0 <= k < cntl1_step_writes(refdiv, postdiv, fbdiv, target).len() implies {
        let w = #[trigger] cntl1_step_writes(refdiv, postdiv, fbdiv, target)[k];
        &&& w.data.len() == 4
        &&& w.data[0] == refdiv
        &&& w.data[1] == postdiv
        &&& between(u16_from_le(w.data[2], w.data[3]) as int, fbdiv as int, target as int)
    } by {
        let v = step_values(fbdiv as int, target as int)[k];
        assert(between(v, fbdiv as int, target as int));
        lemma_cntl1_round_trip(refdiv, postdiv, v as u16);
    }
}

/// Every write of a post-divider phase keeps every field between its
/// initial value and its target, provided the phase starts from a state
/// already within those bounds.
proof fn lemma_phase_writes_bounded(
    phase_init: Seq<u8>,
    init5: Seq<u8>,
    pd_target: Seq<u8>,
    increase: bool,
)
    requires
        phase_init.len() == 4,
        init5.len() == 4,
        pd_target.len() == 4,
        forall|i: int|
            0 <= i < 4 ==> between(
                #[trigger] phase_init[i] as int,
                init5[i] as int,
                pd_target[i] as int,
            ),
    ensures
        forall|k: int|
            0 <= k < phase_writes(phase_init, pd_target, increase).len() ==> {
                let w = #[trigger] phase_writes(phase_init, pd_target, increase)[k];
                &&& w.data.len() == 4
                &&& forall|i: int|
                    0 <= i < 4 ==> between(
                        #[trigger] w.data[i] as int,
                        init5[i] as int,
                        pd_target[i] as int,
                    )
            },
{
    assert forall|k: int|
        0 <= k < phase_writes(phase_init, pd_target, increase).len() implies {
        let w = #[trigger] phase_writes(phase_init, pd_target, increase)[k];
        &&& w.data.len() == 4
        &&& forall|i: int|
            0 <= i < 4 ==> between(
                #[trigger] w.data[i] as int,
                init5[i] as int,
                pd_target[i] as int,
            )
    } by {
        let w0 = field_phase_writes(phase_init, pd_target, increase, 0);
        let w1 = field_phase_writes(phase_init, pd_target, increase, 1);
        let w2 = field_phase_writes(phase_init, pd_target, increase, 2);
        let w3 = field_phase_writes(phase_init, pd_target, increase, 3);
        let w = phase_writes(phase_init, pd_target, increase)[k];
        let f: int = if k < w0.len() {
            0
        } else if k < w0.len() + w1.len() {
            1
        } else if k < w0.len() + w1.len() + w2.len() {
            2
        } else {
            3
        };
        let j: int = if f == 0 {
            k
        } else if f == 1 {
            k - w0.len()
        } else if f == 2 {
            k - w0.len() - w1.len()
        } else {
            k - w0.len() - w1.len() - w2.len()
        };
        assert(w == field_phase_writes(phase_init, pd_target, increase, f)[j]);
        let state = phase_state(phase_init, pd_target, increase, f);
        let v = step_values(state[f] as int, pd_target[f] as int)[j];
        assert(w.data == state.update(f, v as u8));
        assert(state[f] == phase_init[f]);
        assert(between(v, phase_init[f] as int, pd_target[f] as int));
        assert forall|i: int| 0 <= i < 4 implies between(
            #[trigger] w.data[i] as int,
            init5[i] as int,
            pd_target[i] as int,
        ) by {
            if i != f {
                assert(w.data[i] == state[i]);
                assert(state[i] == phase_init[i] || state[i] == pd_target[i]);
            } else {
                assert(w.data[i] == v as u8);
            }
        }
    }
}

/// The excursion-bound law of a frequency transition: every intermediate
/// register value the plan writes lies between the transition's start and
/// its target — each post-divider field between its initial value and its
/// target, the feedback divider likewise, refdiv and postdiv untouched — so
/// the instantaneous output frequency never leaves the range spanned by the
/// start and target operating points.
pub proof fn lemma_transition_bounded(
    init5: Seq<u8>,
    refdiv: u8,
    postdiv: u8,
    fbdiv: u16,
    fb_target: u16,
    pd_target: Seq<u8>,
)
    requires
        init5.len() == 4,
        pd_target.len() == 4,
    ensures
        forall|k: int|
            0 <= k < pll_plan(init5, refdiv, postdiv, fbdiv, fb_target, pd_target).len()
                ==> write_bounded(
                #[trigger] pll_plan(init5, refdiv, postdiv, fbdiv, fb_target, pd_target)[k],
                init5,
                refdiv,
                postdiv,
                fbdiv,
                fb_target,
                pd_target,
            ),
{
    lemma_phase_writes_addr(init5, pd_target, true);
    lemma_phase_writes_addr(after_increase(init5, pd_target), pd_target, false);
    lemma_phase_writes_bounded(init5, init5, pd_target, true);
    lemma_phase_writes_bounded(after_increase(init5, pd_target), init5, pd_target, false);
    lemma_cntl1_steps_bounded(refdiv, postdiv, fbdiv, fb_target);
    let inc = phase_writes(init5, pd_target, true);
    let fb = cntl1_step_writes(refdiv, postdiv, fbdiv, fb_target);
    let dec = phase_writes(after_increase(init5, pd_target), pd_target, false);
    assert forall|k: int|
        0 <= k < pll_plan(init5, refdiv, postdiv, fbdiv, fb_target, pd_target).len()
            implies write_bounded(
        #[trigger] pll_plan(init5, refdiv, postdiv, fbdiv, fb_target, pd_target)[k],
        init5,
        refdiv,
        postdiv,
        fbdiv,
        fb_target,
        pd_target,
    ) by {
        let w = pll_plan(init5, refdiv, postdiv, fbdiv, fb_target, pd_target)[k];
        assert(w == if k < inc.len() {
            inc[k]
        } else if k < inc.len() + fb.len() {
            fb[k - inc.len()]
        } else {
            dec[k - inc.len() - fb.len()]
        });
        assert(PLL_CNTL1_ADDR != PLL_CNTL5_ADDR);
    }
}

/// Every write of a post-divider phase goes to the post-divider register.
proof fn lemma_phase_writes_addr(init: Seq<u8>, tgt: Seq<u8>, increase: bool)
    ensures
        forall|i: int|
            0 <= i < phase_writes(init, tgt, increase).len() ==> (#[trigger] phase_writes(
                init,
                tgt,
                increase,
            )[i]).addr == PLL_CNTL5_ADDR,
{
    assert forall|i: int| 0 <= i < phase_writes(init, tgt, increase).len() implies (
    #[trigger] phase_writes(init, tgt, increase)[i]).addr == PLL_CNTL5_ADDR by {
        let w0 = field_phase_writes(init, tgt, increase, 0);
        let w1 = field_phase_writes(init, tgt, increase, 1);
        let w2 = field_phase_writes(init, tgt, increase, 2);
        let w3 = field_phase_writes(init, tgt, increase, 3);
        assert(phase_writes(init, tgt, increase)[i] == if i < w0.len() {
            w0[i]
        } else if i < w0.len() + w1.len() {
            w1[i - w0.len()]
        } else if i < w0.len() + w1.len() + w2.len() {
            w2[i - w0.len() - w1.len()]
        } else {
            w3[i - w0.len() - w1.len() - w2.len()]
        });
    }
}

} // verus!

//! Verified boot and clock-transition logic for the L2CPU cores of a
//! multi-core accelerator die.
//!
//! The library computes every register value and every chip operation as
//! plain data, with contracts proving the glitch-avoidance stepping rules;
//! a thin driver performs the actual chip I/O.

pub mod boot;
pub mod clock;
pub mod errors;
pub mod ops;
pub mod topology;

pub use boot::{
    BootPlan, BootRequest, L2CPU_RESET_REG_ADDR, build_boot_plan, pad_image, place_ops,
    prefetch_ops, reset_register_value, reset_write_ops, validate_arg_counts,
    validate_core_indices, validate_harvesting,
};
pub use clock::{PLLCNTL1, PLLCNTL5, PLL_CNTL1_ADDR, PLL_CNTL5_ADDR, set_l2cpu_pll};
pub use errors::{ArgKind, BootError};
pub use ops::{ChipOp, OpSpec, RegWrite, WriteSpec};
pub use topology::{gddr_enable_bit, tile_coords};

//! Driver core for a UWB radio transceiver chip that is reached over a
//! register-oriented serial bus.
//!
//! The crate is organised bottom-up:
//!
//! - [`codec`] packs and unpacks bit-precise fields inside register payloads;
//! - [`addressing`] builds the 1-3 byte bus header for a register access;
//! - [`regs`] is the register map, reproduced from the chip's documentation;
//! - [`ll`] combines the three into whole-register read / write / modify
//!   transactions over a caller-supplied [`ll::Transport`];
//! - [`hl`] drives chip initialization and the non-blocking transmit and
//!   receive sequences;
//! - [`time`] and [`util`] provide arithmetic on the chip's 40-bit wrapping
//!   clock.

pub mod addressing;
pub mod codec;
pub mod frame;
pub mod hl;
pub mod ll;
pub mod regs;
pub mod time;
pub mod util;

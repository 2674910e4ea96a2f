//! Control logic for a network-attached tri-state pin controller: an RP2040
//! board with a CH9120 Ethernet bridge, eight local GPIO channels and up to
//! eight MCP23017 I2C port expanders.

use vstd::prelude::*;

pub mod ascii;
pub mod case_law;
pub mod ch9120;
pub mod command;
pub mod drive;
pub mod expander;
pub mod laws;
pub mod line;
pub mod local;
pub mod mcp23017;
pub mod pins;
pub mod process;
pub mod report;
pub mod selector_law;
pub mod status_law;
pub mod syntax_law;
pub mod text;

verus! {

/// Number of local GPIO channels (`P1`..`P8`).
pub const LOCAL_SLOT_COUNT: usize = 8;

/// Number of MCP23017 expanders the bus can address (`0x20`..`0x27`).
pub const MAX_EXPANDERS: usize = 8;

/// GPIO lines per MCP23017.
pub const EXPANDER_SLOT_COUNT: usize = 16;

/// Every slot a command can name: local channels, then every expander line.
pub const TOTAL_SLOT_CAPACITY: usize = LOCAL_SLOT_COUNT + MAX_EXPANDERS * EXPANDER_SLOT_COUNT;

/// The GPIO line of each local channel: `P1` is `GP2`, ..., `P8` is `GP9`.
pub const CONTROL_PINS: [u8; LOCAL_SLOT_COUNT] = [2, 3, 4, 5, 6, 7, 8, 9];

/// The GPIO line that carries the expanders' I2C data.
pub const MCP23017_SDA_PIN: u8 = 26;

/// The GPIO line that carries the expanders' I2C clock.
pub const MCP23017_SCL_PIN: u8 = 27;

/// Longest command line, in bytes, that the line assembler keeps.
pub const COMMAND_BUFFER_LEN: usize = 64;

} // verus!

# net-spider

Control logic for a network-attached tri-state pin controller: a Waveshare
RP2040-ETH board whose CH9120 bridge carries ASCII commands over TCP, eight
local GPIO channels (`P1`..`P8` on `GP2`..`GP9`) and up to eight MCP23017 I2C
expanders (`P9`..`P136`).

- `src/` is the library, verified with Verus: the command language
  (`command`, `ascii`), line assembly (`line`), the local channels and the SIO
  register writes that drive them (`local`), the MCP23017 register encoding
  (`mcp23017`), the expander bank and bus scan (`expander`), slot routing
  (`pins`), the CH9120 configuration sequence (`ch9120`), reply text
  (`report`, `text`), line handling (`process`), and properties that span
  modules (`laws`, `case_law`, `syntax_law`).
- `app/main.rs` owns the peripherals: it carries out the register writes, I2C
  transfers, pauses and UART traffic that the library asks for, and hands the
  outcome of each transfer back to the library, which picks the reply.
  The library is built on `vstd` and the standard library and keeps its
  buffers in `Vec`, so `app/` declares no panic handler or heap allocator of
  its own: both come with the standard library the library links.
- `tests/` exercises the library on concrete inputs.

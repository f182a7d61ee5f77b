//! A text console for a memory-mapped 80x25 character-cell display.
//!
//! `color` packs foreground/background pairs into attribute bytes, `buffer`
//! is the grid of device cells reached through volatile accesses, `writer`
//! is the line-oriented writer with sanitization and scrolling, and `qemu`
//! holds the exit codes reported to the emulator's debug-exit device.

pub mod buffer;
pub mod color;
pub mod qemu;
pub mod writer;

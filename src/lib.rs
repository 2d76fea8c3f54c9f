//! A CHIP-8 virtual machine: memory, registers, stack, timers and framebuffer,
//! and the fetch-decode-execute cycle over the whole instruction set.

pub mod display;
pub mod error;
pub mod semantics;
pub mod cpu;
pub mod cartridge;
pub mod laws;

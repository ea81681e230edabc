//! An interpreter for the CHIP-8 virtual machine: memory, registers, call stack, timers,
//! a pseudo-random source and a monochrome framebuffer, stepped one instruction at a time.
pub mod machine;
pub mod screen;
mod sprite;
pub mod font;
pub mod cpu;
pub mod theorems;

pub use cpu::{CpuInput, CpuOutput, CPU};
pub use machine::CpuError;
pub use screen::Screen;

use vstd::prelude::*;

pub mod bytes;
pub mod desktop;
pub mod gguf;
pub mod login;
pub mod math;
pub mod text;
pub mod vault;
pub mod viewer;
pub mod vision;
pub mod voice;
pub mod wasm;
pub mod windows;
pub mod ai;
pub mod ai_model;
pub mod antivirus;
pub mod audio;
pub mod fs;
pub mod interrupts;
pub mod net;
pub mod kv;
pub mod pci;
pub mod pkg;
pub mod process;
pub mod security;
pub mod scheduler;
pub mod boot;
pub mod display;
pub mod serial;
pub mod sound;
pub mod timer;
pub mod syscall;
pub mod posix;
pub mod game;
pub mod power;
pub mod gpu_boot;
pub mod memory;
pub mod gpu;

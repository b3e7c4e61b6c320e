pub mod cpu;

pub use cpu::SystemUtils;

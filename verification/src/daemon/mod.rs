pub mod engine;
pub mod restoration;

pub use engine::{DaemonEngine, EngineRun};

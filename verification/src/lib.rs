pub mod config;
pub mod daemon;
pub mod detector;
pub mod error;
pub mod optimizer;
pub mod profiles;
pub mod system;
pub mod table;
pub mod text;

pub use config::{Config, ConfigLoader};
pub use daemon::DaemonEngine;
pub use detector::GameDetector;
pub use error::{EngineError, Result};
pub use optimizer::OptimizerManager;
pub use profiles::ProfileManager;
pub use system::SystemUtils;

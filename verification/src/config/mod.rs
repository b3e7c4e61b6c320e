pub mod loader;
pub mod types;

pub use loader::{ConfigLoader, ConfigSource};
pub use types::{Config, DaemonConfig, GameRule, LoggingConfig, PluginConfig, ProfileConfig};

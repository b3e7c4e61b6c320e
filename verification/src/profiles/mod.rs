pub mod manager;

pub use manager::ProfileManager;

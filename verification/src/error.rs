use vstd::prelude::*;

verus! {

#[verifier::external_type_specification]
#[verifier::external_body]
pub struct ExIoError(std::io::Error);

#[verifier::external_type_specification]
#[verifier::external_body]
pub struct ExTomlDeError(toml::de::Error);

#[verifier::external_type_specification]
#[verifier::external_body]
pub struct ExJsonError(serde_json::Error);

#[verifier::external_type_specification]
#[verifier::external_body]
pub struct ExZbusError(zbus::Error);

/// Every error the engine reports; the `String` payload is the message.
#[derive(Debug)]
pub enum EngineError {
    Config(String),
    Io(std::io::Error),
    System(String),
    DBus(String),
    Profile(String),
    Optimizer(String),
    Detector(String),
    NotFound(String),
    PermissionDenied(String),
    Plugin(String),
    Serialization(toml::de::Error),
    Json(serde_json::Error),
    Zbus(zbus::Error),
}

pub type Result<T> = std::result::Result<T, EngineError>;

} // verus!

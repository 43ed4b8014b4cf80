use vstd::prelude::*;

verus! {

/// `std::io::Error`, carried unopened by [`AppError::Io`].
#[verifier::external_type_specification]
#[verifier::external_body]
pub struct ExIoError(std::io::Error);

/// `toml::de::Error`, carried unopened by [`AppError::Toml`].
#[verifier::external_type_specification]
#[verifier::external_body]
pub struct ExTomlDeError(toml::de::Error);

/// `serde_json::Error`, carried unopened by [`AppError::Json`].
#[verifier::external_type_specification]
#[verifier::external_body]
pub struct ExJsonError(serde_json::Error);

/// The errors of the generator.
#[derive(Debug)]
pub enum AppError {
    Io(std::io::Error),
    Toml(toml::de::Error),
    Json(serde_json::Error),
    Llm(String),
    CampaignNotFound(String),
    CharacterNotFound(String),
    SubmodalityNotFound(String),
    InvalidAction(String),
    EnvVarNotSet(String),
}

} // verus!

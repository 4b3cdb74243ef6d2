//! The service's error kinds and how the HTTP API reports them.

use vstd::prelude::*;

verus! {

/// Errors of the service. Each carries the text that describes it.
#[derive(Debug)]
pub enum LoraDbError {
    QueryParseError(String),
    QueryExecutionError(String),
    AuthError(String),
    InvalidDevEui(String),
    ConfigError(String),
    MqttParseError(String),
    StorageError(String),
}

/// The HTTP status and error kind with which the API answers an error.
pub open spec fn response_kind(e: LoraDbError) -> (u16, Seq<char>) {
    match e {
        LoraDbError::QueryParseError(_) => (400, "QueryParseError"@),
        LoraDbError::QueryExecutionError(_) => (500, "QueryExecutionError"@),
        LoraDbError::AuthError(_) => (401, "AuthError"@),
        LoraDbError::InvalidDevEui(_) => (400, "InvalidDevEui"@),
        _ => (500, "InternalError"@),
    }
}

impl LoraDbError {
    /// The text the error carries.
    pub open spec fn detail_spec(&self) -> String {
        match *self {
            LoraDbError::QueryParseError(s) => s,
            LoraDbError::QueryExecutionError(s) => s,
            LoraDbError::AuthError(s) => s,
            LoraDbError::InvalidDevEui(s) => s,
            LoraDbError::ConfigError(s) => s,
            LoraDbError::MqttParseError(s) => s,
            LoraDbError::StorageError(s) => s,
        }
    }

    /// The HTTP status code and error kind of the API's answer to this error.
    pub fn response_status(&self) -> (r: (u16, &'static str))
        ensures
            r.0 == response_kind(*self).0,
            r.1@ == response_kind(*self).1,
    {
        match self {
            LoraDbError::QueryParseError(_) => (400, "QueryParseError"),
            LoraDbError::QueryExecutionError(_) => (500, "QueryExecutionError"),
            LoraDbError::AuthError(_) => (401, "AuthError"),
            LoraDbError::InvalidDevEui(_) => (400, "InvalidDevEui"),
            _ => (500, "InternalError"),
        }
    }

    /// The text the error carries.
    pub fn detail(&self) -> (r: &String)
        ensures
            *r == self.detail_spec(),
    {
        match self {
            LoraDbError::QueryParseError(s) => s,
            LoraDbError::QueryExecutionError(s) => s,
            LoraDbError::AuthError(s) => s,
            LoraDbError::InvalidDevEui(s) => s,
            LoraDbError::ConfigError(s) => s,
            LoraDbError::MqttParseError(s) => s,
            LoraDbError::StorageError(s) => s,
        }
    }
}


/// The API answers parse errors and unknown devices with 400, refused
/// authentication with 401, and every other error with 500.
pub proof fn lemma_error_statuses(e: LoraDbError)
    ensures
        e is QueryParseError ==> response_kind(e) == (400u16, "QueryParseError"@),
        e is InvalidDevEui ==> response_kind(e) == (400u16, "InvalidDevEui"@),
        e is AuthError ==> response_kind(e) == (401u16, "AuthError"@),
        e is QueryExecutionError ==> response_kind(e) == (500u16, "QueryExecutionError"@),
        (e is ConfigError || e is MqttParseError || e is StorageError) ==> response_kind(e) == (500u16,
            "InternalError"@),
{
}

} // verus!

//! Errors of the store's services.

use vstd::prelude::*;
use vstd::string::StringExecFns;

verus! {

/// What can go wrong in a call to the store's services.
#[derive(Debug)]
pub enum EpicAPIError {
    /// Wrong credentials.
    InvalidCredentials,
    /// The service answered with an error; see the contents.
    APIError(String),
    /// Unknown error.
    Unknown,
    /// Invalid parameters.
    InvalidParams,
    /// Server error.
    Server,
    /// Fab refused the request for the time being.
    FabTimeout,
}

impl EpicAPIError {
    /// A short name of the kind of error.
    pub fn description(&self) -> (text: &'static str)
        ensures
            text@ == match *self {
                EpicAPIError::InvalidCredentials => "Invalid Credentials"@,
                EpicAPIError::Unknown => "Unknown Error"@,
                EpicAPIError::Server => "Server Error"@,
                EpicAPIError::APIError(_) => "API Error"@,
                EpicAPIError::InvalidParams => "Invalid Input Parameters"@,
                EpicAPIError::FabTimeout => "Fab Timeout Error"@,
            },
    {
        match self {
            EpicAPIError::InvalidCredentials => "Invalid Credentials",
            EpicAPIError::Unknown => "Unknown Error",
            EpicAPIError::Server => "Server Error",
            EpicAPIError::APIError(_) => "API Error",
            EpicAPIError::InvalidParams => "Invalid Input Parameters",
            EpicAPIError::FabTimeout => "Fab Timeout Error",
        }
    }

    /// The message of the error: its short name, followed for an error of
    /// the service by a colon and what the service said.
    pub fn message(&self) -> (text: String)
        ensures
            text@ == match *self {
                EpicAPIError::APIError(e) => "API Error: "@ + e@,
                EpicAPIError::InvalidCredentials => "Invalid Credentials"@,
                EpicAPIError::Unknown => "Unknown Error"@,
                EpicAPIError::Server => "Server Error"@,
                EpicAPIError::InvalidParams => "Invalid Input Parameters"@,
                EpicAPIError::FabTimeout => "Fab Timeout Error"@,
            },
    {
        match self {
            EpicAPIError::APIError(e) => {
                let mut text: String = "API Error: ".to_owned();
                text.append(e.as_str());
                text
            },
            EpicAPIError::InvalidCredentials => "Invalid Credentials".to_owned(),
            EpicAPIError::Unknown => "Unknown Error".to_owned(),
            EpicAPIError::Server => "Server Error".to_owned(),
            EpicAPIError::InvalidParams => "Invalid Input Parameters".to_owned(),
            EpicAPIError::FabTimeout => "Fab Timeout Error".to_owned(),
        }
    }
}

} // verus!

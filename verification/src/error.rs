//! The fatal errors of a resolution run. Recoverable conditions (a link that
//! does not parse, a source the forge no longer finds) never surface here;
//! they are dropped by the functions that meet them.

use crate::text::{dec_str, dec_of};
use vstd::prelude::*;

verus! {

/// A condition that aborts the run before any output is produced.
#[derive(Clone, Debug, PartialEq, Eq)]
pub enum FundError {
    /// No API token was configured; checked before any network call.
    MissingToken,
    /// The forge answered with status 401.
    InvalidToken,
    /// The forge reported that the token lacks the needed scopes.
    InsufficientScopes,
    /// The forge answered with a status other than 200 or 401.
    UnexpectedStatus(u16),
    /// The response body did not have the shape the forge documents.
    MalformedResponse,
    /// The forge reported an error of a kind this crate does not recover from.
    ApiError(String),
    /// A package's repository URL did not parse.
    InvalidRepoUrl(String),
    /// A repository URL on the forge's host whose path names no repository.
    NotGithubUri(String),
}

/// The mathematical value of a `FundError`.
pub enum ErrorV {
    MissingToken,
    InvalidToken,
    InsufficientScopes,
    UnexpectedStatus(u16),
    MalformedResponse,
    ApiError(Seq<char>),
    InvalidRepoUrl(Seq<char>),
    NotGithubUri(Seq<char>),
}

impl View for FundError {
    type V = ErrorV;

    open spec fn view(&self) -> ErrorV {
        match self {
            FundError::MissingToken => ErrorV::MissingToken,
            FundError::InvalidToken => ErrorV::InvalidToken,
            FundError::InsufficientScopes => ErrorV::InsufficientScopes,
            FundError::UnexpectedStatus(s) => ErrorV::UnexpectedStatus(*s),
            FundError::MalformedResponse => ErrorV::MalformedResponse,
            FundError::ApiError(m) => ErrorV::ApiError(m@),
            FundError::InvalidRepoUrl(u) => ErrorV::InvalidRepoUrl(u@),
            FundError::NotGithubUri(u) => ErrorV::NotGithubUri(u@),
        }
    }
}

/// The message each error carries to the user.
pub open spec fn error_message(e: ErrorV) -> Seq<char> {
    match e {
        ErrorV::MissingToken => (
        "Github API token must be provided through the CARGO_FUND_GITHUB_API_TOKEN environment variable or the --github-api-token flag.")@,
        ErrorV::InvalidToken => (
        "Invalid Github API token. Create a token with the `public_repo` and `user` scopes at https://github.com/settings/tokens.")@,
        ErrorV::InsufficientScopes => (
        "Insufficient Github API token scopes. Modify your token to include the `public_repo` and `user` scopes at https://github.com/settings/tokens.")@,
        ErrorV::UnexpectedStatus(s) => ("Github API returned unexpected status: ")@ + dec_str(
            s as nat,
        ),
        ErrorV::MalformedResponse => ("Malformed Github API response")@,
        ErrorV::ApiError(m) => ("Github API response contained error: ")@ + m,
        ErrorV::InvalidRepoUrl(u) => ("invalid repository URL: ")@ + u,
        ErrorV::NotGithubUri(u) => ("not a full Github URI: ")@ + u,
    }
}

impl FundError {
    /// Renders the error's message.
    pub fn message(&self) -> (r: String)
        ensures
            r@ == error_message(self@),
    {
        match self {
            FundError::MissingToken => String::from_str(
                "Github API token must be provided through the CARGO_FUND_GITHUB_API_TOKEN environment variable or the --github-api-token flag.",
            ),
            FundError::InvalidToken => String::from_str(
                "Invalid Github API token. Create a token with the `public_repo` and `user` scopes at https://github.com/settings/tokens.",
            ),
            FundError::InsufficientScopes => String::from_str(
                "Insufficient Github API token scopes. Modify your token to include the `public_repo` and `user` scopes at https://github.com/settings/tokens.",
            ),
            FundError::UnexpectedStatus(s) => {
                let mut r = String::from_str("Github API returned unexpected status: ");
                let d = dec_of(*s as usize);
                r.append(d.as_str());
                r
            },
            FundError::MalformedResponse => String::from_str("Malformed Github API response"),
            FundError::ApiError(m) => {
                let mut r = String::from_str("Github API response contained error: ");
                r.append(m.as_str());
                r
            },
            FundError::InvalidRepoUrl(u) => {
                let mut r = String::from_str("invalid repository URL: ");
                r.append(u.as_str());
                r
            },
            FundError::NotGithubUri(u) => {
                let mut r = String::from_str("not a full Github URI: ");
                r.append(u.as_str());
                r
            },
        }
    }
}

} // verus!

//! The run's configuration: what the command line and the environment hand
//! in. The shell around the library parses both and converts into these
//! records; the one decision made over them — which token a run uses — is
//! verified here.

use crate::error::{ErrorV, FundError};
use vstd::prelude::*;

verus! {

/// Configuration read from the environment.
pub struct Env {
    pub github_api_token: Option<String>,
}

/// The command-line surface: the single `fund` subcommand.
pub enum Opts {
    Fund(Args),
}

/// The `fund` subcommand's arguments.
pub struct Args {
    /// Overrides the token from the environment.
    pub github_api_token: Option<String>,
    /// Path to the manifest whose dependencies are resolved.
    pub manifest_path: Option<String>,
    /// Verbosity handed through to the metadata collaborator.
    pub verbose: u8,
    /// Print nothing to standard output but the funding tree.
    pub quiet: bool,
    /// Coloring choice handed through to the metadata collaborator.
    pub color: Option<String>,
    /// Unstable flags handed through to the metadata collaborator.
    pub unstable_flags: Vec<String>,
}

impl Args {
    /// The token a run uses: the command-line flag wins over the
    /// environment, and a run without any token fails before any network
    /// call is made.
    pub fn effective_token(&self, env: &Env) -> (r: Result<String, FundError>)
        ensures
            ({
                match self.github_api_token {
                    Some(t) => r matches Ok(s) && s@ == t@,
                    None => match env.github_api_token {
                        Some(t) => r matches Ok(s) && s@ == t@,
                        None => r matches Err(e) && e@ == ErrorV::MissingToken,
                    },
                }
            }),
    {
        match &self.github_api_token {
            Some(t) => Ok(t.clone()),
            None => match &env.github_api_token {
                Some(t) => Ok(t.clone()),
                None => Err(FundError::MissingToken),
            },
        }
    }
}

} // verus!

//! The command-line arguments of the tracker.
use vstd::prelude::*;

verus! {

/// Where to push and as whom.
#[derive(Debug, Clone, PartialEq, Eq)]
pub struct Arguments {
    /// The username for the git account.
    pub git_username: String,
    /// The e-mail address of the commits (the no-reply address of the user
    /// when absent).
    pub git_email: Option<String>,
    /// The auth token for the git account.
    pub git_auth_token: String,
    /// The url of the git repository.
    pub git_url: String,
}

} // verus!

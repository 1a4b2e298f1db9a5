//! The workspace credential as it is stored, and what the dashboard is told of it: whether
//! one is set, and the username and workspace if so, never the app password.

use vstd::prelude::*;

verus! {

/// The credential of one Bitbucket workspace.
#[derive(Debug, PartialEq, Eq)]
pub struct Credentials {
    pub username: String,
    pub app_password: String,
    pub workspace: String,
}

impl Clone for Credentials {
    fn clone(&self) -> (r: Self)
        ensures
            r == *self,
    {
        Credentials {
            username: self.username.clone(),
            app_password: self.app_password.clone(),
            workspace: self.workspace.clone(),
        }
    }
}

/// What the dashboard is told of the stored credential.
#[derive(Debug, Clone, PartialEq, Eq)]
pub struct CredentialsSummary {
    pub username: Option<String>,
    pub workspace: Option<String>,
    pub has_credentials: bool,
}

/// Summarises the stored credential: its username and workspace when one is set, nothing
/// when none is; the app password never leaves the store.
pub fn credentials_summary(stored: Option<Credentials>) -> (s: CredentialsSummary)
    ensures
        match stored {
            Some(c) => s == CredentialsSummary { username: Some(c.username), workspace: Some(c.workspace), has_credentials: true },
            None => s == CredentialsSummary { username: None, workspace: None, has_credentials: false },
        },
{
    match stored {
        Some(c) => CredentialsSummary { username: Some(c.username), workspace: Some(c.workspace), has_credentials: true },
        None => CredentialsSummary { username: None, workspace: None, has_credentials: false },
    }
}

/// The error of a command that needs a credential when none is stored.
pub fn no_credentials_message() -> (m: String)
    ensures
        m@ == "no credentials set"@,
{
    String::from_str("no credentials set")
}

} // verus!

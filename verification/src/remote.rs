//! The remote to-do origins the program can pull from. The network calls
//! themselves live with the program around the library; here are the
//! origin selection and the origins' records.

use vstd::prelude::*;
use vstd::string::*;

verus! {

/// Which remote API a pull goes to.
#[derive(Debug, Clone, Copy, PartialEq, Eq, Structural)]
pub enum RemoteToDoAPI {
    GitLab,
    GitHub,
}

impl RemoteToDoAPI {
    /// Select the API named by `api`; GitLab is the default when the name
    /// is not recognized.
    pub fn new(api: &str) -> (r: Self)
        ensures
            r is GitHub <==> api@ == "github"@ || api@ == "gh"@ || api@ == "h"@,
    {
        let key = String::from_str(api);
        if key == String::from_str("github") || key == String::from_str("gh") || key
            == String::from_str("h") {
            RemoteToDoAPI::GitHub
        } else {
            RemoteToDoAPI::GitLab
        }
    }
}

/// A GitLab origin: where to pull from and how to authenticate.
pub struct GitLabOrigin {
    pub domain: String,
    pub access_token: String,
}

/// A GitHub origin; pulling from it is not implemented.
pub struct GitHubOrigin {}

impl GitLabOrigin {
    pub fn new(domain: String, access_token: String) -> (r: Self)
        ensures
            r.domain == domain,
            r.access_token == access_token,
    {
        GitLabOrigin { domain, access_token }
    }
}

} // verus!

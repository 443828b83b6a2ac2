//! The authenticator client: building the request locations for each authd
//! action.
//!
//! Every action against the authenticator daemon is a request to one
//! endpoint under the daemon's host and port.  The core builds those
//! request locations exactly; carrying them over the wire is I/O and stays
//! outside.

use vstd::prelude::*;

use crate::bytes_util::{spec_decimal, u64_to_decimal};

verus! {

/// Endpoint of the authenticator daemon.
pub const SAFE_AUTHD_ENDPOINT_HOST: &'static str = "https://localhost";

/// Default port number of the authenticator daemon.
pub const SAFE_AUTHD_ENDPOINT_PORT: u16 = 33000;

/// The host-and-port front of every authd request.
pub open spec fn spec_authd_base(port: u16) -> Seq<char> {
    "https://localhost"@ + ":"@ + spec_decimal(port as nat) + "/"@
}

fn authd_base(port: u16) -> (r: String)
    ensures
        r@ == spec_authd_base(port),
{
    proof {
        reveal_strlit("https://localhost");
        reveal_strlit(":");
        reveal_strlit("/");
    }
    let mut s = String::from_str(SAFE_AUTHD_ENDPOINT_HOST);
    s.append(":");
    let p = u64_to_decimal(port as u64);
    s.append(p.as_str());
    s.append("/");
    proof {
        assert(s@ =~= spec_authd_base(port));
    }
    s
}

/// Authd client: knows which daemon to talk to and phrases each action's
/// request.
pub struct SafeAuthdClient {
    pub port: u16,
}

impl SafeAuthdClient {
    /// A client for the daemon on the given port, or on the default port.
    pub fn new(port: Option<u16>) -> (r: Self)
        ensures
            r.port == (match port {
                Some(p) => p,
                None => SAFE_AUTHD_ENDPOINT_PORT,
            }),
    {
        let port_number = match port {
            Some(p) => p,
            None => SAFE_AUTHD_ENDPOINT_PORT,
        };
        Self { port: port_number }
    }

    /// The login request: the `login/` endpoint with the account secret
    /// and password.
    pub fn log_in(&mut self, secret: &str, password: &str) -> (r: String)
        ensures
            r@ == spec_authd_base(old(self).port) + "login/"@ + secret@ + "/"@ + password@,
            *final(self) == *old(self),
    {
        proof {
            reveal_strlit("login/");
            reveal_strlit("/");
        }
        let mut s = authd_base(self.port);
        s.append("login/");
        s.append(secret);
        s.append("/");
        s.append(password);
        s
    }

    /// The logout request: the bare `logout` endpoint.
    pub fn log_out(&mut self) -> (r: String)
        ensures
            r@ == spec_authd_base(old(self).port) + "logout"@,
            *final(self) == *old(self),
    {
        proof {
            reveal_strlit("logout");
        }
        let mut s = authd_base(self.port);
        s.append("logout");
        s
    }

    /// The account-creation request: the `create/` endpoint with the
    /// secret, the password, and the secret key paying for the account.
    pub fn create_acc(&mut self, sk: &str, secret: &str, password: &str) -> (r: String)
        ensures
            r@ == spec_authd_base(old(self).port) + "create/"@ + secret@ + "/"@ + password@ + "/"@
                + sk@,
            *final(self) == *old(self),
    {
        proof {
            reveal_strlit("create/");
            reveal_strlit("/");
        }
        let mut s = authd_base(self.port);
        s.append("create/");
        s.append(secret);
        s.append("/");
        s.append(password);
        s.append("/");
        s.append(sk);
        s
    }

    /// The request for the list of authorised applications.
    pub fn authed_apps(&self) -> (r: String)
        ensures
            r@ == spec_authd_base(self.port) + "authed-apps"@,
    {
        proof {
            reveal_strlit("authed-apps");
        }
        let mut s = authd_base(self.port);
        s.append("authed-apps");
        s
    }

    /// The request that revokes all permissions of one application.
    pub fn revoke_app(&self, app_id: &str) -> (r: String)
        ensures
            r@ == spec_authd_base(self.port) + "revoke/"@ + app_id@,
    {
        proof {
            reveal_strlit("revoke/");
        }
        let mut s = authd_base(self.port);
        s.append("revoke/");
        s.append(app_id);
        s
    }
}

} // verus!

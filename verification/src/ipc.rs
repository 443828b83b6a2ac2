//! IPC response types: what the authenticator hands an application after an
//! authorisation exchange.

use vstd::prelude::*;

use crate::error::Error;
use crate::keys::Keypair;
use crate::membership::NetAddr;

verus! {

/// Network bootstrap information: contacts worth reusing to speed up the
/// next connection.
#[derive(Clone, Debug)]
pub struct NodeConfig {
    pub contacts: Vec<NetAddr>,
}

/// It represents the authentication response.
#[derive(Clone, Debug)]
pub struct AuthGranted {
    /// The access keys.
    pub app_keypair: Keypair,
    /// Network bootstrap information.
    pub bootstrap_config: Option<NodeConfig>,
}

/// IPC response.
#[derive(Debug)]
pub enum IpcResp {
    /// Authentication.
    Auth(Result<AuthGranted, Error>),
    /// Unregistered client.
    Unregistered(Result<NodeConfig, Error>),
}

} // verus!

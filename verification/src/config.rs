//! The explicit configuration value the client runs with, and the
//! authorization header text built from an access token.

use vstd::prelude::*;
use vstd::string::StringExecFns;

verus! {

/// What the client needs to know about itself and its target. Built
/// from values the surrounding code reads in; no ambient global state.
#[derive(Clone, Debug)]
pub struct Settings {
    pub client_id: String,
    pub client_secret: String,
    pub target_channel_name: String,
}

/// Builds the configuration value from its parts.
pub fn get_settings(client_id: String, client_secret: String, target_channel_name: String) -> (r:
    Settings)
    ensures
        r.client_id == client_id,
        r.client_secret == client_secret,
        r.target_channel_name == target_channel_name,
{
    Settings { client_id, client_secret, target_channel_name }
}

/// The value of the authorization header for an access token.
pub fn authorization_value(access_token: &str) -> (r: String)
    ensures
        r@ == "OAuth "@ + access_token@,
{
    let mut s = String::from_str("OAuth ");
    s.append(access_token);
    s
}

} // verus!

//! Token upkeep decisions: where the next tokens come from, and the
//! bodies of the token-endpoint requests. The sends, the persistence of
//! the refresh token and the one-shot login flow live outside the
//! library.

use vstd::prelude::*;
use vstd::string::StringExecFns;

verus! {

/// Where fresh tokens must come from: a stored refresh token, or a full
/// login when none is stored.
#[derive(Clone, Debug)]
pub enum TokenSource {
    /// No refresh token is stored: run the interactive login.
    RunOauth,
    /// Exchange this stored refresh token.
    Refresh(Vec<u8>),
}

/// Decides how to renew the tokens, given the stored refresh token
/// (empty when none was ever stored).
pub fn refresh_plan(stored: &Vec<u8>) -> (r: TokenSource)
    ensures
        stored@.len() == 0 ==> r is RunOauth,
        stored@.len() > 0 ==> (r matches TokenSource::Refresh(t) && t@ == stored@),
{
    if stored.len() == 0 {
        TokenSource::RunOauth
    } else {
        let mut copy: Vec<u8> = Vec::new();
        let mut i: usize = 0;
        while i < stored.len()
            invariant
                i <= stored@.len(),
                copy@ == stored@.take(i as int),
            decreases stored@.len() - i,
        {
            copy.push(stored[i]);
            i = i + 1;
            proof {
                assert(copy@ =~= stored@.take(i as int));
            }
        }
        proof {
            assert(stored@.take(stored@.len() as int) =~= stored@);
        }
        TokenSource::Refresh(copy)
    }
}

/// The form body that exchanges a fresh login code for tokens.
pub fn exchange_token_body(client_secret: &str, auth_code: &str, redirect_uri: &str) -> (r: Vec<
    (String, String),
>)
    ensures
        r@.len() == 4,
        r@[0].0@ == "client_secret"@ && r@[0].1@ == client_secret@,
        r@[1].0@ == "grant_type"@ && r@[1].1@ == "authorization_code"@,
        r@[2].0@ == "code"@ && r@[2].1@ == auth_code@,
        r@[3].0@ == "redirect_uri"@ && r@[3].1@ == redirect_uri@,
{
    let mut r: Vec<(String, String)> = Vec::new();
    r.push((String::from_str("client_secret"), String::from_str(client_secret)));
    r.push((String::from_str("grant_type"), String::from_str("authorization_code")));
    r.push((String::from_str("code"), String::from_str(auth_code)));
    r.push((String::from_str("redirect_uri"), String::from_str(redirect_uri)));
    r
}

/// The form body that trades a refresh token for fresh tokens.
pub fn refresh_token_body(client_secret: &str, refresh_token: &str) -> (r: Vec<(String, String)>)
    ensures
        r@.len() == 3,
        r@[0].0@ == "client_secret"@ && r@[0].1@ == client_secret@,
        r@[1].0@ == "grant_type"@ && r@[1].1@ == "refresh_token"@,
        r@[2].0@ == "refresh_token"@ && r@[2].1@ == refresh_token@,
{
    let mut r: Vec<(String, String)> = Vec::new();
    r.push((String::from_str("client_secret"), String::from_str(client_secret)));
    r.push((String::from_str("grant_type"), String::from_str("refresh_token")));
    r.push((String::from_str("refresh_token"), String::from_str(refresh_token)));
    r
}

/// The login page address a user must open to authorize the client.
pub fn login_url(client_id: &str, scope: &str, redirect_uri: &str) -> (r: String)
    ensures
        r@ == "https://open.trovo.live/page/login.html?client_id="@ + client_id@
            + "&response_type=code&scope="@ + scope@ + "&redirect_uri="@ + redirect_uri@,
{
    let mut s = String::from_str("https://open.trovo.live/page/login.html?client_id=");
    s.append(client_id);
    s.append("&response_type=code&scope=");
    s.append(scope);
    s.append("&redirect_uri=");
    s.append(redirect_uri);
    s
}

} // verus!

//! Gmail OAuth tokens: where they are kept, and which access token to use.
use vstd::prelude::*;
use crate::common::config::{join, spec_join};

verus! {

/// A saved OAuth token.
#[derive(Debug)]
pub struct Token {
    pub access_token: String,
    pub refresh_token: String,
    pub expires_in: u64,
}

/// The saved token's file.
pub fn token_path(credentials_dir: &str) -> (r: String)
    ensures
        r@ == spec_join(credentials_dir@, "gmail_token.json"@),
{
    join(credentials_dir, "gmail_token.json")
}

/// The OAuth client credentials' file.
pub fn creds_path(credentials_dir: &str) -> (r: String)
    ensures
        r@ == spec_join(credentials_dir@, "gmail_credentials.json"@),
{
    join(credentials_dir, "gmail_credentials.json")
}

/// The error for a missing token file.
pub fn token_missing_message(path: &str) -> (r: String)
    ensures
        r@ == "Gmail token not found at "@ + path@
            + ". Run `cargo run --bin gmail-auth` to authenticate."@,
{
    let mut r = String::from_str("Gmail token not found at ");
    r.append(path);
    r.append(". Run `cargo run --bin gmail-auth` to authenticate.");
    r
}

/// The token a refresh reply gives: its access token (empty where
/// missing), the refresh token used, and its lifetime (3600 s where
/// missing).
pub fn refreshed_token(access_token: Option<String>, expires_in: Option<u64>, refresh_token: &str) -> (r:
    Token)
    ensures
        r.access_token@ == (match access_token {
            Some(a) => a@,
            None => seq![],
        }),
        r.refresh_token@ == refresh_token@,
        r.expires_in == (match expires_in {
            Some(e) => e,
            None => 3600,
        }),
{
    Token {
        access_token: match access_token {
            Some(a) => a,
            None => String::new(),
        },
        refresh_token: String::from_str(refresh_token),
        expires_in: match expires_in {
            Some(e) => e,
            None => 3600,
        },
    }
}

/// The saved token has expired at `now` (seconds since the epoch), having
/// been saved at `saved_at` and lasting `expires_in` seconds from then.
pub open spec fn expired(t: Token, saved_at: u64, now: u64) -> bool {
    saved_at + t.expires_in <= now
}

/// A saved token is refreshed where its access token is missing or has
/// expired, and it carries a refresh token to do so.
pub open spec fn spec_should_refresh(t: Token, saved_at: u64, now: u64) -> bool {
    (t.access_token@.len() == 0 || expired(t, saved_at, now)) && t.refresh_token@.len() > 0
}

pub fn should_refresh(t: &Token, saved_at: u64, now: u64) -> (r: bool)
    ensures
        r == spec_should_refresh(*t, saved_at, now),
{
    let a = crate::text::chars_of(t.access_token.as_str());
    let rt = crate::text::chars_of(t.refresh_token.as_str());
    let is_expired = saved_at <= now && t.expires_in <= now - saved_at;
    (a.len() == 0 || is_expired) && rt.len() > 0
}

/// The access token to use: the refreshed one where the refresh worked,
/// else the saved one.
pub fn chosen_access_token(saved: &Token, refreshed: Option<Token>) -> (r: String)
    ensures
        r@ == (match refreshed {
            Some(t) => t.access_token@,
            None => saved.access_token@,
        }),
{
    match refreshed {
        Some(t) => t.access_token,
        None => saved.access_token.clone(),
    }
}

} // verus!

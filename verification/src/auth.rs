//! Session data and token classification shared by the authentication
//! flows. The flows themselves are pure HTTP request/response sequences
//! and live outside this library; they hand plain values in and out.

use vstd::prelude::*;

use crate::network::connection::UuidValue;
use crate::text::str_eq;

pub mod microsoft;

verus! {

/// An authenticated game session.
#[derive(Eq, PartialEq, Clone, Debug)]
pub struct Session {
    pub username: UuidValue,
    pub roles: Vec<String>,
    pub access_token: String,
    pub token_type: TokenType,
    /// How long the session stays valid, in seconds.
    pub expires_in: u64,
}

/// The kind of access token a session carries.
#[derive(Eq, PartialEq, Structural, Clone, Copy, Debug)]
pub enum TokenType {
    Bearer,
}

impl TokenType {
    /// Parses a token-type literal. An unknown literal is an explicit
    /// `None`, never an abort.
    pub fn from_str(s: &str) -> (r: Option<TokenType>)
        ensures
            s@ == "Bearer"@ ==> r == Some(TokenType::Bearer),
            s@ != "Bearer"@ ==> r is None,
    {
        if str_eq(s, "Bearer") {
            Some(TokenType::Bearer)
        } else {
            None
        }
    }
}

} // verus!

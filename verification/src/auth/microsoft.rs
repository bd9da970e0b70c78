//! The value types of the Microsoft/Xbox-Live/Minecraft authentication
//! chain. The chain itself is a sequence of HTTP requests and an OAuth
//! redirect listener, which live outside this library; these are the
//! tokens and errors that pass through it, with the decisions that can be
//! made on plain values.

use vstd::prelude::*;

use crate::web;

verus! {

/// The raw shape of the access-token endpoint's answer.
#[derive(Eq, PartialEq, Clone, Debug)]
pub struct RawAccessToken {
    pub access_token: String,
    pub expires_in: u16,
    pub token_type: String,
}

/// The raw shape of the Minecraft login endpoint's answer.
#[derive(Eq, PartialEq, Clone, Debug)]
pub struct RawSession {
    pub username: String,
    pub roles: Vec<String>,
    pub token_type: String,
    pub expires_in: u32,
    pub access_token: String,
}

/// An OAuth access token.
#[derive(Eq, PartialEq, Clone, Debug)]
pub struct AccessToken {
    pub access_token: String,
    /// How long the token stays valid, in seconds.
    pub expires_in: u64,
    pub token_type: String,
}

/// Drives the Microsoft authentication chain: the OAuth client id, the
/// local port the redirect listener binds, and the refresh token once one
/// was obtained.
pub struct MicrosoftAuthenticator<'a> {
    pub client_id: &'a str,
    pub port: u16,
    refresh_token: Option<String>,
}

impl<'a> MicrosoftAuthenticator<'a> {
    /// The refresh token obtained so far, if any.
    pub closed spec fn spec_refresh_token(&self) -> Option<String> {
        self.refresh_token
    }

    /// The OAuth client id.
    pub closed spec fn spec_client_id(&self) -> Seq<char> {
        self.client_id@
    }

    /// The local port the redirect listener binds.
    pub closed spec fn spec_port(&self) -> u16 {
        self.port
    }

    /// A fresh authenticator with no refresh token yet.
    pub fn new(client_id: &'a str, port: u16) -> (r: Self)
        ensures
            r.spec_client_id() == client_id@,
            r.spec_port() == port,
            r.spec_refresh_token() is None,
    {
        Self { client_id, port, refresh_token: None }
    }
}

/// A token of the Xbox-Live authentication steps, together with the user
/// hash it came with.
#[derive(Eq, PartialEq, Clone, Debug)]
pub struct AuthToken {
    pub token: String,
    pub user_hash: String,
    pub token_type: TokenType,
}

/// Which Xbox-Live step issued a token.
#[derive(Eq, PartialEq, Structural, Clone, Copy, Debug)]
pub enum TokenType {
    XSLS,
    User,
}

/// Which game edition a token is requested for.
#[derive(Eq, PartialEq, Structural, Clone, Copy, Debug)]
pub enum MinecraftEdition {
    Java,
    Bedrock,
}

/// The failure classes the XSTS token endpoint reports.
#[derive(Eq, PartialEq, Structural, Clone, Copy, Debug)]
pub enum XSTSErrorType {
    NoXboxAccount,
    XboxBannedOrNotAvailable,
    NeedsAdultVerification,
    AccountIsChild,
}

impl XSTSErrorType {
    /// Classifies a numeric error code from the XSTS token endpoint. An
    /// unknown code is an explicit `None`, never an abort.
    pub fn from_u64(value: u64) -> (r: Option<Self>)
        ensures
            value == 2148916233u64 ==> r == Some(XSTSErrorType::NoXboxAccount),
            value == 2148916235u64 ==> r == Some(XSTSErrorType::XboxBannedOrNotAvailable),
            value == 2148916236u64 || value == 2148916237u64 ==> r == Some(
                XSTSErrorType::NeedsAdultVerification,
            ),
            value == 2148916238u64 ==> r == Some(XSTSErrorType::AccountIsChild),
            value != 2148916233u64 && value != 2148916235u64 && value != 2148916236u64 && value
                != 2148916237u64 && value != 2148916238u64 ==> r is None,
    {
        if value == 2148916233 {
            Some(Self::NoXboxAccount)
        } else if value == 2148916235 {
            Some(Self::XboxBannedOrNotAvailable)
        } else if value == 2148916236 || value == 2148916237 {
            Some(Self::NeedsAdultVerification)
        } else if value == 2148916238 {
            Some(Self::AccountIsChild)
        } else {
            None
        }
    }
}

/// A structured error from the XSTS token endpoint.
#[derive(Eq, PartialEq, Clone, Debug)]
pub struct XSTSTokenError {
    pub identity: u16,
    pub error_code: u64,
    pub error_type: XSTSErrorType,
    pub redirect: String,
    pub message: String,
}

/// What requesting an XSTS token can fail with: either the endpoint's
/// structured token error, or a plain message with a numeric code. One of
/// the two is always present, never both.
#[derive(Debug)]
pub struct XSTSError {
    token_error: Option<XSTSTokenError>,
    error_text: Option<String>,
    pub error_code: Option<u8>,
}

impl XSTSError {
    /// The structured token error, if this is one.
    pub closed spec fn spec_token_error(&self) -> Option<XSTSTokenError> {
        self.token_error
    }

    /// The plain message, if this is a plain failure.
    pub closed spec fn spec_error_text(&self) -> Option<String> {
        self.error_text
    }

    /// The numeric code, if this is a plain failure.
    pub closed spec fn spec_error_code(&self) -> Option<u8> {
        self.error_code
    }

    /// Exactly one of the two shapes is filled in.
    pub open spec fn wf(&self) -> bool {
        (self.spec_token_error() is Some && self.spec_error_text() is None
            && self.spec_error_code() is None) || (self.spec_token_error() is None
            && self.spec_error_text() is Some && self.spec_error_code() is Some)
    }

    /// Wraps the endpoint's structured token error.
    pub fn token_error(token_error: XSTSTokenError) -> (r: Self)
        ensures
            r.wf(),
            r.spec_token_error() == Some(token_error),
    {
        Self { token_error: Some(token_error), error_code: None, error_text: None }
    }

    /// Wraps a plain failure message with its numeric code.
    pub fn normal(text: String, code: u8) -> (r: Self)
        ensures
            r.wf(),
            r.spec_token_error() is None,
            r.spec_error_text() matches Some(t) && t@ == text@,
            r.spec_error_code() == Some(code),
    {
        Self { token_error: None, error_code: Some(code), error_text: Some(text) }
    }

    /// Converts a plain failure into the glue's generic error; a
    /// structured token error has no such form and comes back unchanged as
    /// the `Err` case.
    pub fn to_error(&self) -> (r: Result<web::Error, ()>)
        requires
            self.wf(),
        ensures
            self.spec_token_error() is Some ==> r is Err,
            self.spec_token_error() is None ==> (r matches Ok(e) && (self.spec_error_text()
                matches Some(t) && e.spec_message() == t@) && Some(e.spec_code())
                == self.spec_error_code()),
    {
        if self.token_error.is_some() {
            return Err(());
        }
        let text = match &self.error_text {
            Some(t) => t.clone(),
            None => {
                return Err(());
            },
        };
        let code = match self.error_code {
            Some(c) => c,
            None => {
                return Err(());
            },
        };
        Ok(web::Error::new(text, code))
    }
}

} // verus!

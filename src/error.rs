use vstd::prelude::*;
use crate::text::{chars_of, push_all};

verus! {

/// What can go wrong while talking to the mail server.
#[derive(Debug, Clone)]
pub enum AppError {
    /// The server refused or failed a protocol command.
    Imap(String),
    /// The TLS handshake failed.
    Tls(String),
    /// The server rejected the credentials.
    Auth(String),
    /// The server could not be reached in time.
    Connection(String),
}

impl AppError {
    pub open spec fn spec_message(&self) -> Seq<char> {
        match self {
            AppError::Imap(m) => "IMAP error: "@ + m@,
            AppError::Tls(m) => "TLS error: "@ + m@,
            AppError::Auth(m) => "Authentication failed: "@ + m@,
            AppError::Connection(m) => "Connection failed: "@ + m@,
        }
    }

    /// The error as a sentence for the user: a prefix naming its kind, then
    /// the detail.
    pub fn message(&self) -> (r: String)
        ensures
            r@ == self.spec_message(),
    {
        let (prefix, detail) = match self {
            AppError::Imap(m) => ("IMAP error: ", m),
            AppError::Tls(m) => ("TLS error: ", m),
            AppError::Auth(m) => ("Authentication failed: ", m),
            AppError::Connection(m) => ("Connection failed: ", m),
        };
        let mut out = prefix.to_owned();
        let tail = chars_of(detail.as_str());
        push_all(&mut out, tail.as_slice());
        out
    }
}

} // verus!

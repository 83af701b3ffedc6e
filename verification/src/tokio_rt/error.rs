//! Error type of sessions.

use vstd::prelude::*;
use crate::kcp_core::error::kcp_error_text;
use crate::kcp_core::KcpError;

verus! {

/// Every failure of a session.
#[derive(Debug)]
pub enum KcpTokioError {
    /// An I/O error on the socket.
    Io(std::io::Error),
    /// An error of the protocol engine.
    Kcp(KcpError),
    /// Nothing was received within the configured timeout.
    Timeout,
    /// The session was closed, locally or because its source went away.
    Closed,
    /// The connection could not be established.
    ConnectionFailed(String),
}

/// A result whose error is a [`KcpTokioError`].
pub type KcpTokioResult<T> = Result<T, KcpTokioError>;

/// The text of `e`, for the variants whose text is fixed; an I/O error's
/// text ends with that of the I/O error.
pub open spec fn tokio_error_text(e: &KcpTokioError) -> Seq<char> {
    match e {
        KcpTokioError::Io(_) => "IO error: "@,
        KcpTokioError::Kcp(k) => "KCP error: "@ + kcp_error_text(k),
        KcpTokioError::Timeout => "session timed out"@,
        KcpTokioError::Closed => "session closed"@,
        KcpTokioError::ConnectionFailed(s) => "connection failed: "@ + s@,
    }
}

impl KcpTokioError {
    /// The human-readable description of the error.
    pub fn message(&self) -> (s: String)
        ensures
            match self {
                KcpTokioError::Io(_) | KcpTokioError::Kcp(KcpError::OutputError(_)) => s@.len()
                    >= tokio_error_text(self).len() && s@.take(tokio_error_text(self).len() as int)
                    == tokio_error_text(self),
                _ => s@ == tokio_error_text(self),
            },
    {
        let mut s = String::new();
        match self {
            KcpTokioError::Io(e) => {
                s.append("IO error: ");
                let t = e.to_string();
                s.append(t.as_str());
            },
            KcpTokioError::Kcp(k) => {
                s.append("KCP error: ");
                let t = k.message();
                s.append(t.as_str());
                proof {
                    if let KcpError::OutputError(_) = k {
                        assert(s@.take(tokio_error_text(self).len() as int) =~= tokio_error_text(
                            self,
                        ));
                    }
                }
            },
            KcpTokioError::Timeout => {
                s.append("session timed out");
            },
            KcpTokioError::Closed => {
                s.append("session closed");
            },
            KcpTokioError::ConnectionFailed(t) => {
                s.append("connection failed: ");
                s.append(t.as_str());
            },
        }
        s
    }
}

} // verus!

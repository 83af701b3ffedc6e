//! Error type of KCP operations.

use vstd::prelude::*;
use super::text::{push_decimal, push_signed, signed_decimal, decimal};

verus! {

/// `std::io::Error`, carried through unchanged.
#[verifier::external_type_specification]
#[verifier::external_body]
pub struct ExIoError(std::io::Error);

/// Every failure of a KCP operation.
#[derive(Debug)]
pub enum KcpError {
    /// The control block could not be created.
    CreateFailed,
    /// The data could not be queued; the protocol's error code.
    SendFailed(i32),
    /// No whole message is ready to be read (not fatal: feed more input).
    RecvWouldBlock,
    /// The buffer is smaller than the next message.
    RecvBufferTooSmall { need: usize, got: usize },
    /// Reading failed with the protocol's error code.
    RecvFailed(i32),
    /// A received datagram was refused; the protocol's error code.
    InputFailed(i32),
    /// The MTU could not be set.
    SetMtuFailed { mtu: u32, code: i32 },
    /// An invalid configuration parameter.
    InvalidConfig(String),
    /// A datagram of another conversation.
    ConvMismatch { expected: u32, got: u32 },
    /// An I/O error while emitting a datagram.
    OutputError(std::io::Error),
}

/// A result whose error is a [`KcpError`].
pub type KcpResult<T> = Result<T, KcpError>;

/// The text of `e`, for every variant but [`KcpError::OutputError`], whose
/// text ends with that of the I/O error.
pub open spec fn kcp_error_text(e: &KcpError) -> Seq<char> {
    match e {
        KcpError::CreateFailed => "failed to create KCP instance"@,
        KcpError::SendFailed(c) => "send failed (error code: "@ + signed_decimal(*c as int) + ")"@,
        KcpError::RecvWouldBlock => "no data available to receive (would block)"@,
        KcpError::RecvBufferTooSmall { need, got } => "receive buffer too small (need "@ + decimal(
            *need as nat,
        ) + " bytes, got "@ + decimal(*got as nat) + " bytes)"@,
        KcpError::RecvFailed(c) => "recv failed (error code: "@ + signed_decimal(*c as int) + ")"@,
        KcpError::InputFailed(c) => "input failed (error code: "@ + signed_decimal(*c as int)
            + ")"@,
        KcpError::SetMtuFailed { mtu, code } => "failed to set MTU to "@ + decimal(*mtu as nat)
            + " (error code: "@ + signed_decimal(*code as int) + ")"@,
        KcpError::InvalidConfig(s) => "invalid configuration: "@ + s@,
        KcpError::ConvMismatch { expected, got } => "conversation ID mismatch (expected "@
            + decimal(*expected as nat) + ", got "@ + decimal(*got as nat) + ")"@,
        KcpError::OutputError(_) => "output callback I/O error: "@,
    }
}

impl KcpError {
    /// The human-readable description of the error.
    pub fn message(&self) -> (s: String)
        ensures
            match self {
                KcpError::OutputError(_) => s@.len() >= kcp_error_text(self).len() && s@.take(
                    kcp_error_text(self).len() as int,
                ) == kcp_error_text(self),
                _ => s@ == kcp_error_text(self),
            },
    {
        let mut s = String::new();
        match self {
            KcpError::CreateFailed => {
                s.append("failed to create KCP instance");
            },
            KcpError::SendFailed(c) => {
                s.append("send failed (error code: ");
                push_signed(&mut s, *c as i64);
                s.append(")");
            },
            KcpError::RecvWouldBlock => {
                s.append("no data available to receive (would block)");
            },
            KcpError::RecvBufferTooSmall { need, got } => {
                s.append("receive buffer too small (need ");
                push_decimal(&mut s, *need as u64);
                s.append(" bytes, got ");
                push_decimal(&mut s, *got as u64);
                s.append(" bytes)");
            },
            KcpError::RecvFailed(c) => {
                s.append("recv failed (error code: ");
                push_signed(&mut s, *c as i64);
                s.append(")");
            },
            KcpError::InputFailed(c) => {
                s.append("input failed (error code: ");
                push_signed(&mut s, *c as i64);
                s.append(")");
            },
            KcpError::SetMtuFailed { mtu, code } => {
                s.append("failed to set MTU to ");
                push_decimal(&mut s, *mtu as u64);
                s.append(" (error code: ");
                push_signed(&mut s, *code as i64);
                s.append(")");
            },
            KcpError::InvalidConfig(t) => {
                s.append("invalid configuration: ");
                s.append(t.as_str());
            },
            KcpError::ConvMismatch { expected, got } => {
                s.append("conversation ID mismatch (expected ");
                push_decimal(&mut s, *expected as u64);
                s.append(", got ");
                push_decimal(&mut s, *got as u64);
                s.append(")");
            },
            KcpError::OutputError(e) => {
                s.append("output callback I/O error: ");
                let t = e.to_string();
                s.append(t.as_str());
            },
        }
        s
    }
}

} // verus!

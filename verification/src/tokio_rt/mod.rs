//! The decisions of an asynchronous KCP session over UDP, as plain state
//! machines: the transport (sockets, timers, tasks) drives them and hands
//! them datagrams, ticks and the time.
//!
//! - [`KcpSessionConfig`] — runtime settings with presets.
//! - [`KcpTokioError`] — failures of a session.
//! - [`KcpSession`] — one connection: sending, reading, closing, timeouts.
//! - [`KcpStream`] — a session read as a stream of messages or bytes.
//! - [`ReadBuffer`] — byte-stream reads over whole messages.
//! - [`SessionRouter`] — a listener's routing of datagrams to sessions.
//! - [`PeerAddr`], [`SessionKey`] — peer addresses and session identities.
//! - [`rand_conv`] — a conversation id from the clock.

pub mod addr;
pub mod config;
pub mod conv;
pub mod error;
pub mod read;
pub mod router;
pub mod session;
pub mod stream;

pub use addr::{PeerAddr, SessionKey};
pub use config::KcpSessionConfig;
pub use conv::rand_conv;
pub use error::{KcpTokioError, KcpTokioResult};
pub use read::{ReadBuffer, ReadStep};
pub use router::{Route, SessionRouter};
pub use session::KcpSession;
pub use stream::KcpStream;

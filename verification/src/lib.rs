//! Three small self-contained utilities: a POSIX-style permission bitmask,
//! a LEB128 variable-length integer codec, and a one-shot inter-thread
//! channel.

pub mod leb128;
pub mod oneshot;
pub mod perms;

pub use oneshot::channel;
pub use oneshot::Sender;
pub use oneshot::Receiver;
pub use oneshot::SendError;
pub use oneshot::RecvError;
pub use oneshot::RecvTimeoutError;
pub use leb128::LEB128DecodeError;
pub use leb128::LEB128EncodeError;
pub use leb128::SLEB128;
pub use leb128::ULEB128;
pub use perms::Perms;
pub use perms::PermsTryFromError;

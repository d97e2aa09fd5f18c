//! A desktop authentication agent core for a system-wide privilege
//! authorization service.
//!
//! The library holds the logic of the agent: translating loosely typed wire
//! identity records into verified local users and groups, the per-request
//! session value, the line-oriented records exchanged with the interactive
//! prompt and the privilege-elevated responder helper, the retry state
//! machine of one authentication session, and the agent's table of in-flight
//! sessions keyed by cookie. Process handling, the message bus, and the
//! credential backend live outside the library and drive it through plain
//! values.

pub mod agent;
pub mod codec;
pub mod identity;
pub mod machine;
pub mod session;

pub use identity::{Identity, IndentityConvertError, WireIdentity, WireValue};
pub use session::{PromptInput, PromptResponse, ResponderInput, Session};

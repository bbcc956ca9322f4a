//! Core logic of a desktop tool-collection shell: a TCP session manager
//! (connection and listener registries, a session directory with byte
//! counters, an event notifier), a plugin registry, a log ring buffer,
//! and the per-tool configuration records.

use vstd::prelude::*;

mod clock;
mod uniq;
pub mod error;
pub mod ids;
pub mod laws;
pub mod logger;
pub mod plugin;
pub mod session;
pub mod shell;
pub mod text;
pub mod tools;

pub use error::AppError;
pub use plugin::PluginInfo;
pub use plugin::PluginManager;
pub use plugin::PluginStatus;
pub use ids::client_id_for;
pub use ids::server_id_for;
pub use session::ConnectionInfo;
pub use session::MessageData;
pub use session::SessionError;
pub use session::SessionEvent;
pub use session::SessionManager;
pub use session::TcpToolConfig;
pub use shell::AppInfo;
pub use shell::app_info;

verus! {

} // verus!

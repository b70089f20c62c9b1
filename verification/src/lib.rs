//! Shared ownership of an in-memory domain record across many readers.
//!
//! One `Agent` record is wrapped in a reference-counted cell; handles to it
//! can be cloned, read through, and counted. A structured-text projection of
//! the record can be rendered and parsed back losslessly.

use vstd::prelude::*;

pub mod agent;
pub mod counting;
pub mod handle;
pub mod json;
pub mod sources;
pub mod timestamp;

pub use agent::Agent;
pub use agent::AgentModel;
pub use agent::Transaction;
pub use counting::HandleEvent;
pub use counting::replay_count;
pub use handle::SharedHandle;
pub use handle::SingleHandle;
pub use json::parse_agent_json;
pub use json::render_agent;
pub use sources::now_timestamp;
pub use sources::random_record_id;
pub use timestamp::Timestamp;

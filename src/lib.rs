//! Hardware performance-counter measurement: the session lifecycle and the
//! marshalling of counter results into an owned name-to-count mapping.

pub mod error;
pub mod events;
pub mod session;

pub use error::PerfError;
pub use events::{EventCounts, RawEvent, collect_events, decode_event_name};
pub use session::{SessionGuard, prepare_session, resolve_event_config};

//! Verified core of a Kubernetes dashboard backend.
//!
//! The heart of the library is the resource watch subsystem: classification
//! of change notifications into Added / Modified / Deleted events, the
//! per-watcher lifecycle (idle or running, never more than one live task),
//! and the registry that routes start/stop requests per resource kind.
//! Around it stand the pure helpers the command layer leans on: context
//! list assembly, quantity parsing and formatting, and session records.

pub mod contexts;
pub mod decimal;
pub mod metrics;
pub mod ordering;
pub mod quantity;
pub mod selector;
pub mod sessions;
pub mod text;
pub mod watch_events;
pub mod watch_lifecycle;
pub mod watch_task;

pub use watch_events::Emission;
pub use watch_events::Notification;
pub use watch_events::ObjectMeta;
pub use watch_events::ResourceKind;
pub use watch_events::StreamItem;
pub use watch_events::WatchEvent;
pub use watch_events::WatchEventType;

//! Implementations of the ports.
pub mod event_bus;
pub mod memory_store;
pub mod notifiers;
pub mod providers;

pub use self::event_bus::{BroadcastPublisher, EventBus};
pub use self::memory_store::{InMemoryEventStore, InMemoryTargetRepository};
pub use self::notifiers::{format_event_text, MultiNotifier};
pub use self::providers::{
    github_branch_event, github_release_event, npm_latest_event, CompositeWatchProvider, FakeWatchProvider,
};

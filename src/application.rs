//! The ports of the system and the use cases built on them.
pub mod handle_event;
pub mod ports;
pub mod run_once;

pub use self::handle_event::{HandleEventUseCase, Handled};
pub use self::run_once::{RunOnceUseCase, TargetOutcome};
pub use self::ports::{
    AppError, EventPublisher, EventQuery, EventRecord, EventRecordQuery, EventStore, Notifier,
    TargetRepository, WatchProvider,
};

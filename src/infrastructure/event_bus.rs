use vstd::prelude::*;

use tokio::sync::broadcast::{Receiver, Sender};

use crate::application::ports::{AppError, EventPublisher, EventRecord};

verus! {

/// tokio's `broadcast::Sender`, carried opaquely.
#[verifier::external_type_specification]
#[verifier::external_body]
#[verifier::reject_recursive_types(T)]
pub struct ExSender<T>(Sender<T>);

/// tokio's `broadcast::Receiver`, carried opaquely.
#[verifier::external_type_specification]
#[verifier::external_body]
#[verifier::reject_recursive_types(T)]
pub struct ExReceiver<T>(Receiver<T>);

/// Relies on tokio's `Clone` for `broadcast::Sender`: another handle to the
/// same channel.
pub assume_specification<T>[ <Sender<T> as Clone>::clone ](tx: &Sender<T>) -> Sender<T>;

/// Relies on tokio's `broadcast::Sender::new`: a channel holding the last
/// `capacity` messages; it panics on a zero capacity or one above
/// `usize::MAX / 2`.
#[verifier::external_body]
fn open_channel(capacity: usize) -> (r: Sender<(i64, EventRecord)>)
    requires
        0 < capacity <= usize::MAX / 2,
{
    Sender::new(capacity)
}

/// Relies on tokio's `broadcast::Sender::subscribe`: a receiver of every
/// message sent after the call. (It panics only at `usize::MAX / 4` live
/// receivers, more than memory can hold.)
#[verifier::external_body]
fn subscribe_channel(tx: &Sender<(i64, EventRecord)>) -> (r: Receiver<(i64, EventRecord)>) {
    tx.subscribe()
}

/// Relies on tokio's `broadcast::Sender::send`, which never blocks; a send
/// without receivers is dropped.
#[verifier::external_body]
fn send_channel(tx: &Sender<(i64, EventRecord)>, message: (i64, EventRecord)) {
    let _ = tx.send(message);
}

/// The in-process broadcast of newly stored rows: `(rowid, record)` to
/// every live subscriber, through a bounded buffer. A subscriber that
/// falls behind learns of it on its next read and recovers from the store.
#[derive(Clone)]
pub struct EventBus {
    tx: Sender<(i64, EventRecord)>,
}

impl EventBus {
    /// A bus that buffers `buffer` messages per subscriber.
    pub fn new(buffer: usize) -> (r: EventBus)
        requires
            0 < buffer <= usize::MAX / 2,
    {
        EventBus { tx: open_channel(buffer) }
    }

    /// A receiver of every row published from now on.
    pub fn subscribe(&self) -> Receiver<(i64, EventRecord)> {
        subscribe_channel(&self.tx)
    }

    /// Announces a stored row; never blocks, never fails.
    pub fn publish(&self, rowid: i64, record: EventRecord) {
        send_channel(&self.tx, (rowid, record));
    }
}

/// Publishes stored rows on an [`EventBus`].
pub struct BroadcastPublisher {
    bus: EventBus,
}

impl BroadcastPublisher {
    pub fn new(bus: EventBus) -> Self {
        BroadcastPublisher { bus }
    }

    /// The bus rows are published on.
    pub fn bus(&self) -> &EventBus {
        &self.bus
    }
}

impl EventPublisher for BroadcastPublisher {
    fn publish(&self, rowid: i64, record: &EventRecord) -> Result<(), AppError> {
        self.bus.publish(rowid, record.duplicate());
        Ok(())
    }
}

} // verus!

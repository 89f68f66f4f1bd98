use vstd::prelude::*;

use crate::application::ports::{
    copy_texts, texts, AppError, EventPublisher, EventRecord, Notifier, RecordView,
};
use crate::domain::event::{Event, EventView};
use crate::domain::policy::{scope_key_text, CooldownPolicy, CooldownScope};
use crate::infrastructure::memory_store::{InMemoryEventStore, StoreState};

verus! {

/// What one ingestion did.
#[derive(Clone, Copy, Debug, PartialEq, Eq, Structural)]
pub enum Handled {
    /// The event id was already seen: nothing stored, nothing sent.
    AlreadySeen,
    /// Stored and notified. `rowid` is `None` when the store already held
    /// the id (the seen marks had been lost).
    Notified { rowid: Option<i64> },
    /// Stored, but the cooldown scope was notified too recently.
    CoolingDown { rowid: Option<i64> },
}

/// The record stored for an event.
pub open spec fn record_for(e: EventView, target_id: Seq<char>, labels: Seq<Seq<char>>, now: i64) -> RecordView {
    RecordView { event: e, target_id, labels, detected_at_epoch: now }
}

/// The scope `key` was notified less than `cooldown` seconds before `now`.
pub open spec fn cooling_down(s: StoreState, key: Seq<char>, now: i64, cooldown: u64) -> bool {
    &&& cooldown > 0
    &&& s.last_notified(key) matches Some(last)
    &&& now - last < cooldown
}

/// What the pipeline decides for an event before any notification is sent.
pub enum IngestPlan {
    /// The id is marked seen.
    AlreadySeen,
    /// A new row is needed and the rowid sequence is exhausted.
    Exhausted,
    /// The event is persisted and marked seen, giving `state`; a
    /// notification is due unless the scope is cooling down.
    Persisted { state: StoreState, rowid: Option<int>, notify: bool },
}

/// The pipeline's decision for event `e` of target `target_id` at `now`.
pub open spec fn ingest_plan(
    s: StoreState,
    e: EventView,
    target_id: Seq<char>,
    labels: Seq<Seq<char>>,
    now: i64,
    cooldown: u64,
    scope: CooldownScope,
) -> IngestPlan {
    if s.seen.contains(e.event_id) {
        IngestPlan::AlreadySeen
    } else if !s.has_id(e.event_id) && s.log.len() >= i64::MAX {
        IngestPlan::Exhausted
    } else {
        let state = s.append(record_for(e, target_id, labels, now)).mark_seen(e.event_id);
        let rowid = if s.has_id(e.event_id) { None } else { Some(s.log.len() + 1int) };
        let key = scope_key_text(scope, target_id, e.event_type);
        IngestPlan::Persisted { state, rowid, notify: !cooling_down(state, key, now, cooldown) }
    }
}

/// The state after a notification for scope `key` at `now` was sent.
pub open spec fn after_notified(s: StoreState, key: Seq<char>, now: i64, cooldown: u64) -> StoreState {
    if cooldown > 0 {
        s.set_notified(key, now)
    } else {
        s
    }
}

/// The state after one ingestion; `sent` is whether the notifier succeeded,
/// when it was called.
pub open spec fn state_after(
    s: StoreState,
    e: EventView,
    target_id: Seq<char>,
    labels: Seq<Seq<char>>,
    now: i64,
    cooldown: u64,
    scope: CooldownScope,
    sent: bool,
) -> StoreState {
    match ingest_plan(s, e, target_id, labels, now, cooldown, scope) {
        IngestPlan::Persisted { state, notify, .. } => if notify && sent {
            after_notified(state, scope_key_text(scope, target_id, e.event_type), now, cooldown)
        } else {
            state
        },
        _ => s,
    }
}

/// The ingestion plan calls for a notification.
pub open spec fn notify_due(p: IngestPlan) -> bool {
    p matches IngestPlan::Persisted { notify, .. } && notify
}

/// What one ingestion of `e` leaves (`t` from `s`) and returns (`r`),
/// given what the notifier returned (`sent`) when a notification was due.
pub open spec fn handle_post(
    s: StoreState,
    t: StoreState,
    r: Result<Handled, AppError>,
    e: EventView,
    target_id: Seq<char>,
    labels: Seq<Seq<char>>,
    now: i64,
    cooldown: u64,
    scope: CooldownScope,
    sent: Result<(), AppError>,
) -> bool {
    let key = scope_key_text(scope, target_id, e.event_type);
    match ingest_plan(s, e, target_id, labels, now, cooldown, scope) {
        IngestPlan::AlreadySeen => r == Ok::<Handled, AppError>(Handled::AlreadySeen) && t == s,
        IngestPlan::Exhausted => (r matches Err(AppError::Storage(_))) && t == s,
        IngestPlan::Persisted { state, rowid, notify } => {
            let id = match rowid {
                Some(x) => Some(x as i64),
                None => None,
            };
            if notify {
                finish_post(state, t, r, key, now, cooldown, id, sent)
            } else {
                r == Ok::<Handled, AppError>(Handled::CoolingDown { rowid: id }) && t == state
            }
        },
    }
}

/// After a due notification: on the notifier's success the scope's
/// last-notified epoch becomes `now` (with a cooldown) and `Notified` is
/// returned; on its failure its error is returned and nothing changes.
pub open spec fn finish_post(
    s: StoreState,
    t: StoreState,
    r: Result<Handled, AppError>,
    key: Seq<char>,
    now: i64,
    cooldown: u64,
    rowid: Option<i64>,
    sent: Result<(), AppError>,
) -> bool {
    match sent {
        Ok(()) => r == Ok::<Handled, AppError>(Handled::Notified { rowid }) && t == after_notified(s, key, now, cooldown),
        Err(e) => r == Err::<Handled, AppError>(e) && t == s,
    }
}

/// One ingestion through `notifier`: `handle_post` holds for a result the
/// notifier actually returned for `event`, when a notification was due.
pub open spec fn ingest_post<N: Notifier>(
    notifier: &N,
    event: &Event,
    s: StoreState,
    t: StoreState,
    r: Result<Handled, AppError>,
    target_id: Seq<char>,
    labels: Seq<Seq<char>>,
    now: i64,
    cooldown: u64,
    scope: CooldownScope,
) -> bool {
    exists|sent: Result<(), AppError>|
        (notify_due(ingest_plan(s, event@, target_id, labels, now, cooldown, scope)) ==> call_ensures(
            N::notify,
            (notifier, event),
            sent,
        )) && #[trigger] handle_post(s, t, r, event@, target_id, labels, now, cooldown, scope, sent)
}

/// An ingestion only ever appends to the log.
pub proof fn lemma_handle_appends(
    s: StoreState,
    t: StoreState,
    r: Result<Handled, AppError>,
    e: EventView,
    target_id: Seq<char>,
    labels: Seq<Seq<char>>,
    now: i64,
    cooldown: u64,
    scope: CooldownScope,
    sent: Result<(), AppError>,
)
    requires
        handle_post(s, t, r, e, target_id, labels, now, cooldown, scope, sent),
    ensures
        s.log.is_prefix_of(t.log),
{
    assert(s.log.is_prefix_of(s.append(record_for(e, target_id, labels, now)).log));
}

/// Dedups, persists, publishes and notifies one detected change.
#[derive(Clone, Copy, Debug)]
pub struct HandleEventUseCase {
    /// Zero disables the cooldown.
    pub cooldown_seconds: u64,
    pub scope: CooldownScope,
}

impl HandleEventUseCase {
    /// The pipeline for a cooldown policy.
    pub fn from_policy(policy: CooldownPolicy) -> (r: HandleEventUseCase)
        ensures
            r.cooldown_seconds == policy.cooldown_seconds,
            r.scope == policy.scope,
    {
        HandleEventUseCase { cooldown_seconds: policy.cooldown_seconds, scope: policy.scope }
    }

    /// Handles `event`, detected on `target_id` at epoch `now`:
    /// 1. an id already marked seen is skipped;
    /// 2. the record is appended (idempotently), the id marked seen, and a
    ///    new row published;
    /// 3. unless the cooldown scope was notified under `cooldown_seconds`
    ///    ago, the notifier is called, and on success the scope's
    ///    last-notified epoch becomes `now`.
    /// A notifier failure is returned and undoes nothing.
    pub fn execute<N: Notifier, P: EventPublisher>(
        &self,
        store: &mut InMemoryEventStore,
        notifier: &N,
        publisher: &P,
        event: &Event,
        target_id: &String,
        labels: &Vec<String>,
        now: i64,
    ) -> (r: Result<Handled, AppError>)
        ensures
            ingest_post(
                notifier,
                event,
                old(store)@,
                final(store)@,
                r,
                target_id@,
                texts(labels@),
                now,
                self.cooldown_seconds,
                self.scope,
            ),
    {
        if store.has_seen(event.event_id.as_str()) {
            proof {
                assert(handle_post(old(store)@, store@, Ok::<Handled, AppError>(Handled::AlreadySeen), event@, target_id@, texts(labels@), now, self.cooldown_seconds, self.scope, Ok(())));
            }
            return Ok(Handled::AlreadySeen);
        }
        let record = EventRecord {
            event: event.duplicate(),
            target_id: target_id.clone(),
            labels: copy_texts(labels),
            detected_at_epoch: now,
        };
        let rowid = match store.append_record(&record) {
            Ok(r) => r,
            Err(e) => {
                proof {
                    assert(handle_post(old(store)@, store@, Err::<Handled, AppError>(e), event@, target_id@, texts(labels@), now, self.cooldown_seconds, self.scope, Ok(())));
                }
                return Err(e);
            },
        };
        store.mark_seen(event.event_id.as_str());
        if let Some(id) = rowid {
            let _ = publisher.publish(id, &record);
        }
        let key = self.scope.scope_key(target_id.as_str(), &event.event_type);
        if self.cooldown_seconds > 0 {
            if let Some(last) = store.get_last_notified(key.as_str()) {
                let elapsed = now as i128 - last as i128;
                if elapsed < self.cooldown_seconds as i128 {
                    proof {
                        assert(handle_post(old(store)@, store@, Ok::<Handled, AppError>(Handled::CoolingDown { rowid }), event@, target_id@, texts(labels@), now, self.cooldown_seconds, self.scope, Ok(())));
                    }
                    return Ok(Handled::CoolingDown { rowid });
                }
            }
        }
        let sent = notifier.notify(event);
        let ghost sent_view = sent;
        let r = self.finish(store, &key, now, rowid, sent);
        proof {
            assert(handle_post(old(store)@, store@, r, event@, target_id@, texts(labels@), now, self.cooldown_seconds, self.scope, sent_view));
        }
        r
    }

    /// Completes a due notification given what the notifier returned.
    pub fn finish(
        &self,
        store: &mut InMemoryEventStore,
        key: &String,
        now: i64,
        rowid: Option<i64>,
        sent: Result<(), AppError>,
    ) -> (r: Result<Handled, AppError>)
        ensures
            finish_post(old(store)@, final(store)@, r, key@, now, self.cooldown_seconds, rowid, sent),
    {
        match sent {
            Ok(()) => {
                if self.cooldown_seconds > 0 {
                    store.set_last_notified(key.as_str(), now);
                }
                Ok(Handled::Notified { rowid })
            },
            Err(e) => Err(e),
        }
    }
}

/// Appending keeps event ids unique, and afterwards the record's id is stored.
pub proof fn lemma_append_keeps_ids_unique(s: StoreState, r: RecordView)
    requires
        s.ids_unique(),
    ensures
        s.append(r).ids_unique(),
        s.append(r).has_id(r.event.event_id),
        s.append(r).log.len() <= s.log.len() + 1,
{
    let t = s.append(r);
    if !s.has_id(r.event.event_id) {
        assert(t.log[s.log.len() as int] == r);
        assert forall|i: int, j: int|
            0 <= i < t.log.len() && 0 <= j < t.log.len()
                && #[trigger] t.log[i].event.event_id == #[trigger] t.log[j].event.event_id
                implies i == j by {
            if i < s.log.len() && j == s.log.len() {
                assert(s.log[i].event.event_id == r.event.event_id);
            }
            if j < s.log.len() && i == s.log.len() {
                assert(s.log[j].event.event_id == r.event.event_id);
            }
            if i < s.log.len() && j < s.log.len() {
                assert(s.log[i] == t.log[i] && s.log[j] == t.log[j]);
            }
        }
    }
}

/// Ingesting two events with the same id, in any context and at any times,
/// stores exactly one row for that id and calls for at most one
/// notification; once the first call has persisted the event, the second
/// changes nothing.
pub proof fn lemma_idempotent_ingestion(
    s: StoreState,
    e1: EventView,
    target1: Seq<char>,
    labels1: Seq<Seq<char>>,
    now1: i64,
    sent1: bool,
    e2: EventView,
    target2: Seq<char>,
    labels2: Seq<Seq<char>>,
    now2: i64,
    sent2: bool,
    cooldown: u64,
    scope: CooldownScope,
)
    requires
        s.ids_unique(),
        e1.event_id == e2.event_id,
    ensures
        ({
            let first = ingest_plan(s, e1, target1, labels1, now1, cooldown, scope);
            let s1 = state_after(s, e1, target1, labels1, now1, cooldown, scope, sent1);
            let second = ingest_plan(s1, e2, target2, labels2, now2, cooldown, scope);
            let s2 = state_after(s1, e2, target2, labels2, now2, cooldown, scope, sent2);
            &&& !(notify_due(first) && notify_due(second))
            &&& (first is Persisted ==> second is AlreadySeen && s2 == s1)
            &&& s2.ids_unique()
            &&& (first is Persisted || second is Persisted) ==> s2.has_id(e1.event_id)
            &&& s2.log.len() <= s.log.len() + 1
        }),
{
    let first = ingest_plan(s, e1, target1, labels1, now1, cooldown, scope);
    let s1 = state_after(s, e1, target1, labels1, now1, cooldown, scope, sent1);
    lemma_append_keeps_ids_unique(s, record_for(e1, target1, labels1, now1));
    if first is Persisted {
        assert(s1.seen.contains(e1.event_id));
        assert(s1.log == s.append(record_for(e1, target1, labels1, now1)).log);
    } else {
        assert(s1 == s);
        lemma_append_keeps_ids_unique(s, record_for(e2, target2, labels2, now2));
    }
}

/// Two distinct events in one cooldown scope, the first notified at `t1`
/// and the second detected at `t2 >= t1`: the second is notified exactly
/// when `t2 - t1 >= cooldown`.
pub proof fn lemma_cooldown_correctness(
    s: StoreState,
    e1: EventView,
    target1: Seq<char>,
    labels1: Seq<Seq<char>>,
    t1: i64,
    e2: EventView,
    target2: Seq<char>,
    labels2: Seq<Seq<char>>,
    t2: i64,
    cooldown: u64,
    scope: CooldownScope,
)
    requires
        e1.event_id != e2.event_id,
        !s.seen.contains(e1.event_id),
        !s.seen.contains(e2.event_id),
        !s.has_id(e1.event_id),
        !s.has_id(e2.event_id),
        s.log.len() + 2 <= i64::MAX,
        scope_key_text(scope, target1, e1.event_type) == scope_key_text(scope, target2, e2.event_type),
        !cooling_down(s, scope_key_text(scope, target1, e1.event_type), t1, cooldown),
        t1 <= t2,
    ensures
        ({
            let first = ingest_plan(s, e1, target1, labels1, t1, cooldown, scope);
            let s1 = state_after(s, e1, target1, labels1, t1, cooldown, scope, true);
            let second = ingest_plan(s1, e2, target2, labels2, t2, cooldown, scope);
            &&& notify_due(first)
            &&& notify_due(second) <==> t2 - t1 >= cooldown
        }),
{
    let key = scope_key_text(scope, target1, e1.event_type);
    let r1 = record_for(e1, target1, labels1, t1);
    let st1 = s.append(r1).mark_seen(e1.event_id);
    assert(st1.cooldowns == s.cooldowns);
    let s1 = state_after(s, e1, target1, labels1, t1, cooldown, scope, true);
    assert(s1.log == s.log.push(r1));
    assert(!s1.seen.contains(e2.event_id));
    assert(!s1.has_id(e2.event_id)) by {
        if s1.has_id(e2.event_id) {
            let i = choose|i: int| 0 <= i < s1.log.len() && #[trigger] s1.log[i].event.event_id == e2.event_id;
            if i < s.log.len() {
                assert(s.log[i] == s1.log[i]);
            }
        }
    }
    let st2 = s1.append(record_for(e2, target2, labels2, t2)).mark_seen(e2.event_id);
    assert(st2.cooldowns == s1.cooldowns);
    if cooldown > 0 {
        assert(s1.cooldowns == st1.cooldowns.insert(key, t1));
        assert(st2.last_notified(key) == Some(t1));
    }
}

} // verus!
